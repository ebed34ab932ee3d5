//! Installation discovery: which components an installation holds, and the
//! version each reports.

use vstd::prelude::*;
use vstd::utf8::encode_utf8;

use crate::text::{
    chars_of, is_digit, join_path, lines, lines_of, owned, parse_decimal, path_join, parse_unsigned, split_char, split_on,
    string_of, trim_end_when, trim_start_when, trim_when, trim_ws, trim_ws_chars, views, words,
    words_of,
};

verus! {

/// Characters trimmed off a word before it is tried as a version: all but
/// ASCII digits and `.`.
pub open spec fn not_version_char() -> spec_fn(char) -> bool {
    |c: char| !(is_digit(c) || c == '.')
}

/// A word with non-version characters trimmed from both ends.
pub open spec fn version_core(word: Seq<char>) -> Seq<char> {
    trim_when(word, not_version_char())
}

/// At least two dot-separated parts, each a non-empty `u32` as
/// `u32::from_str` reads it, and at most 20 bytes in all.
pub open spec fn is_version_token(t: Seq<char>) -> bool {
    let parts = split_char(t, '.');
    &&& parts.len() >= 2
    &&& forall|i: int|
        0 <= i < parts.len() ==> #[trigger] parts[i].len() > 0 && parse_unsigned(
            parts[i],
            u32::MAX as nat,
        ) is Some
    &&& encode_utf8(t).len() <= 20
}

/// The version core of the first word of `ws` that is a version token.
pub open spec fn first_token_in_words(ws: Seq<Seq<char>>) -> Option<Seq<char>>
    decreases ws.len(),
{
    if ws.len() == 0 {
        None
    } else if is_version_token(version_core(ws[0])) {
        Some(version_core(ws[0]))
    } else {
        first_token_in_words(ws.drop_first())
    }
}

/// The first version token over the words of the lines, in order.
pub open spec fn first_token_in_lines(ls: Seq<Seq<char>>) -> Option<Seq<char>>
    decreases ls.len(),
{
    if ls.len() == 0 {
        None
    } else {
        match first_token_in_words(words(ls[0])) {
            Some(t) => Some(t),
            None => first_token_in_lines(ls.drop_first()),
        }
    }
}

/// Deno prints `deno X.Y.Z ...` first: the last word of the first line, when
/// it starts with a digit.
pub open spec fn deno_version(out: Seq<char>) -> Option<Seq<char>> {
    let ls = lines(out);
    if ls.len() == 0 {
        None
    } else {
        let ws = words(ls[0]);
        if ws.len() > 0 && ws.last().len() > 0 && is_digit(ws.last()[0]) {
            Some(ws.last())
        } else {
            None
        }
    }
}

/// When no version is found: the first line (or `unknown`), trimmed, cut
/// to 60 characters.
pub open spec fn version_fallback(out: Seq<char>) -> Seq<char> {
    let ls = lines(out);
    let first = if ls.len() > 0 {
        ls[0]
    } else {
        "unknown"@
    };
    let t = trim_ws(first);
    if t.len() > 60 {
        t.take(60)
    } else {
        t
    }
}

/// The version read from the output of `<exe> --version`.
pub open spec fn extracted_version(out: Seq<char>, is_deno: bool) -> Seq<char> {
    if is_deno && deno_version(out) is Some {
        deno_version(out).unwrap()
    } else {
        match first_token_in_lines(lines(out)) {
            Some(t) => t,
            None => version_fallback(out),
        }
    }
}

fn version_core_of(word: &[char]) -> (r: Vec<char>)
    ensures
        r@ == version_core(word@),
{
    let mut lo: usize = 0;
    assert(word@.skip(0) == word@);
    while lo < word.len() && !(('0' <= word[lo] && word[lo] <= '9') || word[lo] == '.')
        invariant
            lo <= word.len(),
            trim_start_when(word@, not_version_char()) == trim_start_when(
                word@.skip(lo as int),
                not_version_char(),
            ),
        decreases word.len() - lo,
    {
        assert(word@.skip(lo as int).drop_first() == word@.skip(lo + 1));
        assert(word@.skip(lo as int)[0] == word@[lo as int]);
        lo = lo + 1;
    }
    let ghost start = word@.skip(lo as int);
    assert(trim_start_when(word@, not_version_char()) == start);
    let mut hi: usize = word.len();
    assert(word@.subrange(lo as int, hi as int) == start);
    while hi > lo && !(('0' <= word[hi - 1] && word[hi - 1] <= '9') || word[hi - 1] == '.')
        invariant
            lo <= hi <= word.len(),
            start == word@.skip(lo as int),
            trim_end_when(start, not_version_char()) == trim_end_when(
                word@.subrange(lo as int, hi as int),
                not_version_char(),
            ),
        decreases hi,
    {
        assert(word@.subrange(lo as int, hi as int).drop_last() == word@.subrange(
            lo as int,
            hi - 1,
        ));
        assert(word@.subrange(lo as int, hi as int).last() == word@[hi - 1]);
        hi = hi - 1;
    }
    let mut r: Vec<char> = Vec::new();
    for i in lo..hi
        invariant
            lo <= hi <= word.len(),
            r@ == word@.subrange(lo as int, i as int),
    {
        r.push(word[i]);
        assert(word@.subrange(lo as int, i + 1) == word@.subrange(lo as int, i as int).push(
            word@[i as int],
        ));
    }
    r
}

fn is_version_token_exec(t: &[char]) -> (b: bool)
    ensures
        b == is_version_token(t@),
{
    let parts = split_on(t, '.');
    let ghost pv = views(parts@);
    if parts.len() < 2 {
        return false;
    }
    for i in 0..parts.len()
        invariant
            pv == views(parts@),
            pv == split_char(t@, '.'),
            forall|j: int|
                0 <= j < i ==> #[trigger] pv[j].len() > 0 && parse_unsigned(
                    pv[j],
                    u32::MAX as nat,
                ) is Some,
    {
        assert(pv[i as int] == parts@[i as int]@);
        if parts[i].len() == 0 {
            return false;
        }
        if parse_decimal(parts[i].as_slice(), u32::MAX).is_none() {
            return false;
        }
    }
    let text = string_of(t);
    let bytes = text.as_str().as_bytes();
    bytes.len() <= 20
}

/// The version in the output of `<exe> --version`: for Deno the last word of
/// the first line when it starts with a digit; otherwise the first word that,
/// trimmed to digits and dots, reads as a dotted version of at most 20 bytes;
/// otherwise the first line trimmed and cut to 60 characters.
#[verifier::loop_isolation(false)]
pub fn extract_version(output: &str, is_deno: bool) -> (r: String)
    ensures
        r@ == extracted_version(output@, is_deno),
{
    let out = chars_of(output);
    let ls = lines_of(out.as_slice());
    let ghost lv = views(ls@);
    if is_deno && ls.len() > 0 {
        let ws = words_of(ls[0].as_slice());
        assert(lv[0] == ls@[0]@);
        if ws.len() > 0 {
            let last = &ws[ws.len() - 1];
            assert(views(ws@).last() == last@);
            if last.len() > 0 && '0' <= last[0] && last[0] <= '9' {
                return string_of(last.as_slice());
            }
        }
    }
    assert(lv.skip(0) == lv);
    for i in 0..ls.len()
        invariant
            lv == views(ls@),
            lv == lines(output@),
            lv.len() == ls@.len(),
            is_deno ==> deno_version(output@) is None,
            first_token_in_lines(lv) == first_token_in_lines(lv.skip(i as int)),
    {
        let ws = words_of(ls[i].as_slice());
        let ghost wv = views(ws@);
        assert(lv.skip(i as int)[0] == ls@[i as int]@);
        assert(wv.skip(0) == wv);
        for k in 0..ws.len()
            invariant
                wv == views(ws@),
                wv == words(lv[i as int]),
                first_token_in_words(wv) == first_token_in_words(wv.skip(k as int)),
        {
            assert(wv.skip(k as int)[0] == ws@[k as int]@);
            let core = version_core_of(ws[k].as_slice());
            if is_version_token_exec(core.as_slice()) {
                assert(first_token_in_words(wv.skip(k as int)) == Some(core@));
                assert(lv.skip(i as int)[0] == lv[i as int]);
                assert(first_token_in_lines(lv.skip(i as int)) == Some(core@));
                return string_of(core.as_slice());
            }
            assert(wv.skip(k as int).drop_first() == wv.skip(k + 1));
        }
        assert(wv.skip(ws.len() as int).len() == 0);
        assert(lv.skip(i as int).drop_first() == lv.skip(i + 1));
    }
    assert(lv.skip(ls.len() as int).len() == 0);
    let first: Vec<char> = if ls.len() > 0 {
        assert(lv[0] == ls@[0]@);
        ls[0].clone()
    } else {
        chars_of("unknown")
    };
    let t = trim_ws_chars(first.as_slice());
    if t.len() > 60 {
        let mut cut: Vec<char> = Vec::new();
        for i in 0..60
            invariant
                t@.len() > 60,
                cut@ == t@.take(i as int),
        {
            cut.push(t[i]);
            assert(t@.take(i + 1) == t@.take(i as int).push(t@[i as int]));
        }
        string_of(cut.as_slice())
    } else {
        string_of(t.as_slice())
    }
}


proof fn lemma_encode_len(t: Seq<char>)
    ensures
        encode_utf8(t).len() >= t.len(),
    decreases t.len(),
{
    if t.len() > 0 {
        lemma_encode_len(t.drop_first());
    }
}

proof fn lemma_token_in_words(ws: Seq<Seq<char>>)
    ensures
        first_token_in_words(ws) matches Some(t) ==> is_version_token(t),
    decreases ws.len(),
{
    if ws.len() > 0 && !is_version_token(version_core(ws[0])) {
        lemma_token_in_words(ws.drop_first());
    }
}

proof fn lemma_token_in_lines(ls: Seq<Seq<char>>)
    ensures
        first_token_in_lines(ls) matches Some(t) ==> is_version_token(t),
    decreases ls.len(),
{
    if ls.len() > 0 {
        lemma_token_in_words(words(ls[0]));
        lemma_token_in_lines(ls.drop_first());
    }
}

/// Outside Deno, the version read from a `--version` output is either a
/// dotted version of at least two numeric parts, or the cut first line; it
/// never has more than 60 characters.
pub proof fn law_version_is_short(out: Seq<char>)
    ensures
        extracted_version(out, false).len() <= 60,
        first_token_in_lines(lines(out)) is Some ==> is_version_token(extracted_version(out, false)),
{
    lemma_token_in_lines(lines(out));
    if let Some(t) = first_token_in_lines(lines(out)) {
        lemma_encode_len(t);
    }
}

/// Word `i` of `ws` trims to a version token.
pub open spec fn word_is_version(ws: Seq<Seq<char>>, i: int) -> bool {
    0 <= i < ws.len() && is_version_token(version_core(ws[i]))
}

/// Word `i` of line `l` of `ls` trims to a version token.
pub open spec fn version_at(ls: Seq<Seq<char>>, l: int, i: int) -> bool {
    0 <= l < ls.len() && word_is_version(words(ls[l]), i)
}

proof fn lemma_first_word_pos(ws: Seq<Seq<char>>)
    ensures
        first_token_in_words(ws) is None <==> forall|i: int| !#[trigger] word_is_version(ws, i),
        first_token_in_words(ws) matches Some(t) ==> exists|i: int|
            #[trigger] word_is_version(ws, i) && t == version_core(ws[i]) && forall|j: int|
                0 <= j < i ==> !#[trigger] word_is_version(ws, j),
    decreases ws.len(),
{
    if ws.len() > 0 {
        let rest = ws.drop_first();
        assert forall|k: int| k >= 0 implies (#[trigger] word_is_version(rest, k) <==> word_is_version(ws, k + 1)) by {
            if 0 <= k < rest.len() {
                assert(rest[k] == ws[k + 1]);
            }
        }
        if word_is_version(ws, 0) {
            assert(first_token_in_words(ws) == Some(version_core(ws[0])));
        } else {
            lemma_first_word_pos(rest);
            if let Some(t) = first_token_in_words(rest) {
                let i = choose|i: int|
                    #[trigger] word_is_version(rest, i) && t == version_core(rest[i]) && forall|j: int|
                        0 <= j < i ==> !#[trigger] word_is_version(rest, j);
                assert(word_is_version(ws, i + 1));
                assert(rest[i] == ws[i + 1]);
                assert forall|j: int| 0 <= j < i + 1 implies !#[trigger] word_is_version(ws, j) by {
                    if j > 0 {
                        assert(!word_is_version(rest, j - 1));
                    }
                }
            } else {
                assert forall|i: int| !#[trigger] word_is_version(ws, i) by {
                    if i > 0 {
                        assert(!word_is_version(rest, i - 1));
                    }
                }
            }
        }
    }
}

proof fn lemma_first_line_pos(ls: Seq<Seq<char>>)
    ensures
        first_token_in_lines(ls) is None <==> forall|l: int, i: int| !#[trigger] version_at(ls, l, i),
        first_token_in_lines(ls) matches Some(t) ==> exists|l: int, i: int|
            #[trigger] version_at(ls, l, i) && t == version_core(words(ls[l])[i]) && (forall|j: int|
                0 <= j < i ==> !#[trigger] version_at(ls, l, j)) && (forall|l2: int, j: int|
                0 <= l2 < l ==> !#[trigger] version_at(ls, l2, j)),
    decreases ls.len(),
{
    if ls.len() > 0 {
        let rest = ls.drop_first();
        assert forall|k: int, i: int| k >= 0 implies (#[trigger] version_at(rest, k, i) <==> version_at(ls, k + 1, i)) by {
            if 0 <= k < rest.len() {
                assert(rest[k] == ls[k + 1]);
            }
        }
        let ws = words(ls[0]);
        lemma_first_word_pos(ws);
        assert forall|i: int| #[trigger] version_at(ls, 0, i) <==> word_is_version(ws, i) by {}
        match first_token_in_words(ws) {
            Some(t) => {
                let i = choose|i: int|
                    #[trigger] word_is_version(ws, i) && t == version_core(ws[i]) && forall|j: int|
                        0 <= j < i ==> !#[trigger] word_is_version(ws, j);
                assert(version_at(ls, 0, i));
                assert forall|j: int| 0 <= j < i implies !#[trigger] version_at(ls, 0, j) by {
                    assert(!word_is_version(ws, j));
                }
            },
            None => {
                lemma_first_line_pos(rest);
                if let Some(t) = first_token_in_lines(rest) {
                    let (l, i) = choose|l: int, i: int|
                        #[trigger] version_at(rest, l, i) && t == version_core(words(rest[l])[i]) && (
                        forall|j: int| 0 <= j < i ==> !#[trigger] version_at(rest, l, j)) && (forall|
                            l2: int,
                            j: int,
                        | 0 <= l2 < l ==> !#[trigger] version_at(rest, l2, j));
                    assert(version_at(ls, l + 1, i));
                    assert(rest[l] == ls[l + 1]);
                    assert forall|j: int| 0 <= j < i implies !#[trigger] version_at(ls, l + 1, j) by {
                        assert(!version_at(rest, l, j));
                    }
                    assert forall|l2: int, j: int| 0 <= l2 < l + 1 implies !#[trigger] version_at(
                        ls,
                        l2,
                        j,
                    ) by {
                        if l2 == 0 {
                            assert(!word_is_version(ws, j));
                        } else {
                            assert(!version_at(rest, l2 - 1, j));
                        }
                    }
                } else {
                    assert forall|l: int, i: int| !#[trigger] version_at(ls, l, i) by {
                        if l == 0 {
                            assert(!word_is_version(ws, i));
                        } else if l > 0 {
                            assert(!version_at(rest, l - 1, i));
                        }
                    }
                }
            },
        }
    }
}

/// Outside Deno, the version read is the version core of the first word, in
/// line order and then word order, whose core is a dotted version: no
/// earlier word of the output trims to one. When no word does, the first
/// line is shown instead.
pub proof fn law_version_is_first_version_word(out: Seq<char>)
    ensures
        (forall|l: int, i: int| !#[trigger] version_at(lines(out), l, i)) ==> extracted_version(out, false)
            == version_fallback(out),
        (exists|l: int, i: int| #[trigger] version_at(lines(out), l, i)) ==> exists|l: int, i: int|
            #[trigger] version_at(lines(out), l, i) && extracted_version(out, false) == version_core(
                words(lines(out)[l])[i],
            ) && (forall|j: int| 0 <= j < i ==> !#[trigger] version_at(lines(out), l, j)) && (
            forall|l2: int, j: int| 0 <= l2 < l ==> !#[trigger] version_at(lines(out), l2, j)),
{
    lemma_first_line_pos(lines(out));
}

/// Information about an installed component.
pub struct ComponentInfo {
    pub name: String,
    pub display_name: String,
    /// The component's directory.
    pub path: String,
    pub version: String,
    /// The executable, relative to `path`.
    pub exe_name: String,
    pub is_installed: bool,
}

impl ComponentInfo {
    /// The executable's full path, `None` when the component names no
    /// executable. Whether the file exists is for the caller to find out.
    pub fn exe_path(&self) -> (r: Option<String>)
        ensures
            self.exe_name@.len() == 0 ==> r is None,
            self.exe_name@.len() > 0 ==> (r matches Some(p) && p@ == join_path(self.path@, self.exe_name@)),
    {
        if self.exe_name.unicode_len() == 0 {
            None
        } else {
            Some(path_join(self.path.as_str(), self.exe_name.as_str()))
        }
    }
}

/// Full installation discovery result.
pub struct Installation {
    pub root: String,
    pub www: String,
    pub apache: Option<ComponentInfo>,
    pub nginx: Option<ComponentInfo>,
    pub mariadb: Option<ComponentInfo>,
    pub mysql: Option<ComponentInfo>,
    pub postgresql: Option<ComponentInfo>,
    pub php: Option<ComponentInfo>,
    pub redis: Option<ComponentInfo>,
    pub valkey: Option<ComponentInfo>,
    pub deno: Option<ComponentInfo>,
    pub composer: Option<ComponentInfo>,
}

pub open spec fn present(c: Option<ComponentInfo>) -> Seq<ComponentInfo> {
    match c {
        Some(info) => seq![info],
        None => Seq::empty(),
    }
}

/// The components present, in the order apache, nginx, mariadb, mysql,
/// postgresql, php, redis, valkey, deno, composer.
pub open spec fn present_components(i: Installation) -> Seq<ComponentInfo> {
    present(i.apache) + present(i.nginx) + present(i.mariadb) + present(i.mysql) + present(
        i.postgresql,
    ) + present(i.php) + present(i.redis) + present(i.valkey) + present(i.deno) + present(
        i.composer,
    )
}

fn push_present<'a>(list: &mut Vec<&'a ComponentInfo>, c: &'a Option<ComponentInfo>)
    ensures
        final(list)@.map_values(|r: &ComponentInfo| *r) == old(list)@.map_values(
            |r: &ComponentInfo| *r,
        ) + present(*c),
{
    let ghost before = list@;
    match c {
        Some(info) => {
            list.push(info);
            assert(list@.map_values(|r: &ComponentInfo| *r) =~= before.map_values(
                |r: &ComponentInfo| *r,
            ) + present(*c));
        },
        None => {
            assert(list@.map_values(|r: &ComponentInfo| *r) =~= before.map_values(
                |r: &ComponentInfo| *r,
            ) + present(*c));
        },
    }
}

impl Installation {
    /// The components that are present, in a fixed order.
    pub fn components(&self) -> (list: Vec<&ComponentInfo>)
        ensures
            list@.map_values(|r: &ComponentInfo| *r) == present_components(*self),
    {
        let mut list: Vec<&ComponentInfo> = Vec::new();
        assert(list@.map_values(|r: &ComponentInfo| *r) =~= Seq::<ComponentInfo>::empty());
        push_present(&mut list, &self.apache);
        push_present(&mut list, &self.nginx);
        push_present(&mut list, &self.mariadb);
        push_present(&mut list, &self.mysql);
        push_present(&mut list, &self.postgresql);
        push_present(&mut list, &self.php);
        push_present(&mut list, &self.redis);
        push_present(&mut list, &self.valkey);
        push_present(&mut list, &self.deno);
        push_present(&mut list, &self.composer);
        assert(list@.map_values(|r: &ComponentInfo| *r) =~= present_components(*self));
        list
    }
}


/// What discovery knows of one component: the directory it lives in under
/// the root, its names, its executable relative to that directory, and
/// whether its `--version` output is read the Deno way.
pub struct ComponentKind {
    pub dir: &'static str,
    pub name: &'static str,
    pub display_name: &'static str,
    pub exe_name: &'static str,
    pub is_deno: bool,
}

/// The component table, in the order of the `Installation` fields. MariaDB
/// and MySQL both live under `mysql`.
pub open spec fn kind_table() -> Seq<(Seq<char>, Seq<char>, Seq<char>, Seq<char>, bool)> {
    seq![
        ("apache"@, "apache"@, "Apache HTTP Server"@, "bin/httpd.exe"@, false),
        ("nginx"@, "nginx"@, "Nginx"@, "nginx.exe"@, false),
        ("mysql"@, "mariadb"@, "MariaDB"@, "bin/mysqld.exe"@, false),
        ("mysql"@, "mysql"@, "MySQL"@, "bin/mysqld.exe"@, false),
        ("postgresql"@, "postgresql"@, "PostgreSQL"@, "bin/pg_ctl.exe"@, false),
        ("php"@, "php"@, "PHP"@, "php.exe"@, false),
        ("redis"@, "redis"@, "Redis"@, "redis-server.exe"@, false),
        ("valkey"@, "valkey"@, "Valkey"@, "valkey-server.exe"@, false),
        ("deno"@, "deno"@, "Deno"@, "deno.exe"@, true),
        ("composer"@, "composer"@, "Composer"@, "composer.bat"@, false),
    ]
}

pub open spec fn kind_row(i: int) -> (Seq<char>, Seq<char>, Seq<char>, Seq<char>, bool) {
    kind_table()[i]
}

pub open spec fn kind_view(k: ComponentKind) -> (Seq<char>, Seq<char>, Seq<char>, Seq<char>, bool) {
    (k.dir@, k.name@, k.display_name@, k.exe_name@, k.is_deno)
}

/// The ten components discovery looks for.
pub fn component_kinds() -> (v: Vec<ComponentKind>)
    ensures
        v@.len() == 10,
        forall|i: int| 0 <= i < 10 ==> kind_view(#[trigger] v@[i]) == kind_row(i),
{
    let mut v: Vec<ComponentKind> = Vec::new();
    v.push(ComponentKind { dir: "apache", name: "apache", display_name: "Apache HTTP Server", exe_name: "bin/httpd.exe", is_deno: false });
    v.push(ComponentKind { dir: "nginx", name: "nginx", display_name: "Nginx", exe_name: "nginx.exe", is_deno: false });
    v.push(ComponentKind { dir: "mysql", name: "mariadb", display_name: "MariaDB", exe_name: "bin/mysqld.exe", is_deno: false });
    v.push(ComponentKind { dir: "mysql", name: "mysql", display_name: "MySQL", exe_name: "bin/mysqld.exe", is_deno: false });
    v.push(ComponentKind { dir: "postgresql", name: "postgresql", display_name: "PostgreSQL", exe_name: "bin/pg_ctl.exe", is_deno: false });
    v.push(ComponentKind { dir: "php", name: "php", display_name: "PHP", exe_name: "php.exe", is_deno: false });
    v.push(ComponentKind { dir: "redis", name: "redis", display_name: "Redis", exe_name: "redis-server.exe", is_deno: false });
    v.push(ComponentKind { dir: "valkey", name: "valkey", display_name: "Valkey", exe_name: "valkey-server.exe", is_deno: false });
    v.push(ComponentKind { dir: "deno", name: "deno", display_name: "Deno", exe_name: "deno.exe", is_deno: true });
    v.push(ComponentKind { dir: "composer", name: "composer", display_name: "Composer", exe_name: "composer.bat", is_deno: false });
    v
}

/// The components discovery looks for, in the order of the `Installation`
/// fields, with the directory each is found in (MariaDB and MySQL share
/// `mysql`, every other component has a directory of its own name), its
/// display name and its executable; only Deno's output is read the Deno way.
pub proof fn law_component_table()
    ensures
        kind_table().len() == 10,
        kind_table().map_values(|r: (Seq<char>, Seq<char>, Seq<char>, Seq<char>, bool)| r.1) == seq!["apache"@, "nginx"@, "mariadb"@, "mysql"@, "postgresql"@, "php"@, "redis"@, "valkey"@, "deno"@, "composer"@],
        kind_table().map_values(|r: (Seq<char>, Seq<char>, Seq<char>, Seq<char>, bool)| r.0) == seq!["apache"@, "nginx"@, "mysql"@, "mysql"@, "postgresql"@, "php"@, "redis"@, "valkey"@, "deno"@, "composer"@],
        kind_table().map_values(|r: (Seq<char>, Seq<char>, Seq<char>, Seq<char>, bool)| r.2) == seq!["Apache HTTP Server"@, "Nginx"@, "MariaDB"@, "MySQL"@, "PostgreSQL"@, "PHP"@, "Redis"@, "Valkey"@, "Deno"@, "Composer"@],
        kind_table().map_values(|r: (Seq<char>, Seq<char>, Seq<char>, Seq<char>, bool)| r.3) == seq!["bin/httpd.exe"@, "nginx.exe"@, "bin/mysqld.exe"@, "bin/mysqld.exe"@, "bin/pg_ctl.exe"@, "php.exe"@, "redis-server.exe"@, "valkey-server.exe"@, "deno.exe"@, "composer.bat"@],
        forall|i: int| 0 <= i < 10 ==> (#[trigger] kind_row(i).4 <==> i == 8),
{
    assert(kind_table().map_values(|r: (Seq<char>, Seq<char>, Seq<char>, Seq<char>, bool)| r.1) =~= seq!["apache"@, "nginx"@, "mariadb"@, "mysql"@, "postgresql"@, "php"@, "redis"@, "valkey"@, "deno"@, "composer"@]);
    assert(kind_table().map_values(|r: (Seq<char>, Seq<char>, Seq<char>, Seq<char>, bool)| r.0) =~= seq!["apache"@, "nginx"@, "mysql"@, "mysql"@, "postgresql"@, "php"@, "redis"@, "valkey"@, "deno"@, "composer"@]);
    assert(kind_table().map_values(|r: (Seq<char>, Seq<char>, Seq<char>, Seq<char>, bool)| r.2) =~= seq!["Apache HTTP Server"@, "Nginx"@, "MariaDB"@, "MySQL"@, "PostgreSQL"@, "PHP"@, "Redis"@, "Valkey"@, "Deno"@, "Composer"@]);
    assert(kind_table().map_values(|r: (Seq<char>, Seq<char>, Seq<char>, Seq<char>, bool)| r.3) =~= seq!["bin/httpd.exe"@, "nginx.exe"@, "bin/mysqld.exe"@, "bin/mysqld.exe"@, "bin/pg_ctl.exe"@, "php.exe"@, "redis-server.exe"@, "valkey-server.exe"@, "deno.exe"@, "composer.bat"@]);
}

/// `c` is the component of row `i` of an installation at `root`: present,
/// with its directory `root` joined with the row's directory and the version
/// its executable reported, when that directory exists (`found` is the
/// version), absent when it does not.
pub open spec fn found_component(c: Option<ComponentInfo>, i: int, root: Seq<char>, found: Option<String>) -> bool {
    match found {
        Some(version) => {
            &&& c matches Some(info)
            &&& info.name@ == kind_row(i).1
            &&& info.display_name@ == kind_row(i).2
            &&& info.path@ == join_path(root, kind_row(i).0)
            &&& info.version == version
            &&& info.exe_name@ == kind_row(i).3
            &&& info.is_installed
        },
        None => c is None,
    }
}

/// The directory of a component under the installation root.
pub fn component_dir(root: &str, kind: &ComponentKind) -> (r: String)
    ensures
        r@ == join_path(root@, kind.dir@),
{
    path_join(root, kind.dir)
}

fn make_component(root: &str, kind: &ComponentKind, found: &Option<String>) -> (r: Option<ComponentInfo>)
    ensures
        match *found {
            Some(version) => r matches Some(c) && c.name@ == kind.name@ && c.display_name@
                == kind.display_name@ && c.path@ == join_path(root@, kind.dir@) && c.version == version
                && c.exe_name@ == kind.exe_name@ && c.is_installed,
            None => r is None,
        },
{
    match found {
        Some(version) => Some(
            ComponentInfo {
                name: owned(kind.name),
                display_name: owned(kind.display_name),
                path: component_dir(root, kind),
                version: version.clone(),
                exe_name: owned(kind.exe_name),
                is_installed: true,
            },
        ),
        None => None,
    }
}

/// Assembles the installation at `root`: its web root is `root` joined with
/// `www`; `found[i]` holds, for row `i` of `component_kinds`, the version
/// its executable reported when the row's directory exists under `root`.
pub fn discover_installation(root: String, found: Vec<Option<String>>) -> (inst: Installation)
    requires
        found@.len() == 10,
    ensures
        inst.root == root,
        inst.www@ == join_path(root@, "www"@),
        found_component(inst.apache, 0, root@, found@[0]),
        found_component(inst.nginx, 1, root@, found@[1]),
        found_component(inst.mariadb, 2, root@, found@[2]),
        found_component(inst.mysql, 3, root@, found@[3]),
        found_component(inst.postgresql, 4, root@, found@[4]),
        found_component(inst.php, 5, root@, found@[5]),
        found_component(inst.redis, 6, root@, found@[6]),
        found_component(inst.valkey, 7, root@, found@[7]),
        found_component(inst.deno, 8, root@, found@[8]),
        found_component(inst.composer, 9, root@, found@[9]),
{
    let kinds = component_kinds();
    let r = root.as_str();
    let apache = make_component(r, &kinds[0], &found[0]);
    let nginx = make_component(r, &kinds[1], &found[1]);
    let mariadb = make_component(r, &kinds[2], &found[2]);
    let mysql = make_component(r, &kinds[3], &found[3]);
    let postgresql = make_component(r, &kinds[4], &found[4]);
    let php = make_component(r, &kinds[5], &found[5]);
    let redis = make_component(r, &kinds[6], &found[6]);
    let valkey = make_component(r, &kinds[7], &found[7]);
    let deno = make_component(r, &kinds[8], &found[8]);
    let composer = make_component(r, &kinds[9], &found[9]);
    let www = path_join(r, "www");
    proof {
        assert(kind_view(kinds@[0]) == kind_row(0));
        assert(kind_view(kinds@[1]) == kind_row(1));
        assert(kind_view(kinds@[2]) == kind_row(2));
        assert(kind_view(kinds@[3]) == kind_row(3));
        assert(kind_view(kinds@[4]) == kind_row(4));
        assert(kind_view(kinds@[5]) == kind_row(5));
        assert(kind_view(kinds@[6]) == kind_row(6));
        assert(kind_view(kinds@[7]) == kind_row(7));
        assert(kind_view(kinds@[8]) == kind_row(8));
        assert(kind_view(kinds@[9]) == kind_row(9));
    }
    Installation { root, www, apache, nginx, mariadb, mysql, postgresql, php, redis, valkey, deno, composer }
}

/// Where an installation is looked for, in order: beside the running
/// executable, then `C:/xampp`, then `D:/xampp`.
pub enum InstallRoot {
    BesideExecutable,
    CXampp,
    DXampp,
}

/// The first place that holds an Apache directory, given for each place
/// whether it does; `None` when none does.
pub fn pick_root(beside_executable: bool, c_xampp: bool, d_xampp: bool) -> (r: Option<InstallRoot>)
    ensures
        beside_executable ==> r matches Some(InstallRoot::BesideExecutable),
        !beside_executable && c_xampp ==> r matches Some(InstallRoot::CXampp),
        !beside_executable && !c_xampp && d_xampp ==> r matches Some(InstallRoot::DXampp),
        !beside_executable && !c_xampp && !d_xampp ==> r is None,
{
    if beside_executable {
        Some(InstallRoot::BesideExecutable)
    } else if c_xampp {
        Some(InstallRoot::CXampp)
    } else if d_xampp {
        Some(InstallRoot::DXampp)
    } else {
        None
    }
}

} // verus!
