//! Character-sequence helpers shared by the parsers and generators.

use vstd::prelude::*;
use vstd::utf8::{decode_utf8, is_ascii_chars, valid_utf8};

verus! {

/// Characters with the Unicode `White_Space` property, which is what
/// `char::is_whitespace` tests.
pub open spec fn is_ws(c: char) -> bool {
    let u = c as u32;
    ||| 0x09 <= u <= 0x0D
    ||| u == 0x20
    ||| u == 0x85
    ||| u == 0xA0
    ||| u == 0x1680
    ||| 0x2000 <= u <= 0x200A
    ||| u == 0x2028
    ||| u == 0x2029
    ||| u == 0x202F
    ||| u == 0x205F
    ||| u == 0x3000
}

pub open spec fn is_digit(c: char) -> bool {
    '0' <= c <= '9'
}

pub open spec fn lower_ascii(c: char) -> char {
    if 'A' <= c <= 'Z' {
        ((c as u32) + 32) as char
    } else {
        c
    }
}

/// Whitespace test with the same answers as `char::is_whitespace`.
pub fn is_whitespace(c: char) -> (b: bool)
    ensures
        b == is_ws(c),
{
    let u = c as u32;
    (0x09 <= u && u <= 0x0D) || u == 0x20 || u == 0x85 || u == 0xA0 || u == 0x1680 || (0x2000 <= u
        && u <= 0x200A) || u == 0x2028 || u == 0x2029 || u == 0x202F || u == 0x205F || u == 0x3000
}

pub fn to_lower_ascii(c: char) -> (r: char)
    ensures
        r == lower_ascii(c),
{
    if 'A' <= c && c <= 'Z' {
        let b: u8 = (c as u8) + 32;
        b as char
    } else {
        c
    }
}

#[verifier::external_body]
pub(crate) fn push_char(s: &mut String, c: char)
    ensures
        final(s)@ == old(s)@.push(c),
{
    s.push(c);
}

/// The characters of `s`, in order.
pub fn chars_of(s: &str) -> (v: Vec<char>)
    ensures
        v@ == s@,
{
    let n = s.unicode_len();
    let mut v: Vec<char> = Vec::new();
    for i in 0..n
        invariant
            n == s@.len(),
            v@ == s@.take(i as int),
    {
        v.push(s.get_char(i));
        assert(s@.take(i + 1) == s@.take(i as int).push(s@[i as int]));
    }
    assert(s@.take(n as int) == s@);
    v
}

/// An owned copy of a text.
pub fn owned(s: &str) -> (r: String)
    ensures
        r@ == s@,
{
    let v = chars_of(s);
    string_of(v.as_slice())
}

/// A `String` holding exactly the characters of `v`.
pub fn string_of(v: &[char]) -> (s: String)
    ensures
        s@ == v@,
{
    let mut s = String::new();
    for i in 0..v.len()
        invariant
            s@ == v@.take(i as int),
    {
        push_char(&mut s, v[i]);
        assert(v@.take(i + 1) == v@.take(i as int).push(v@[i as int]));
    }
    assert(v@.take(v@.len() as int) == v@);
    s
}


/// Splits `s` at every character satisfying `sep`, as `str::split` with a
/// character pattern does: always at least one part, empty parts kept.
pub open spec fn split_when(s: Seq<char>, sep: spec_fn(char) -> bool) -> Seq<Seq<char>>
    decreases s.len(),
{
    if s.len() == 0 {
        seq![Seq::<char>::empty()]
    } else {
        let r = split_when(s.drop_last(), sep);
        if sep(s.last()) {
            r.push(Seq::<char>::empty())
        } else {
            r.update(r.len() - 1, r.last().push(s.last()))
        }
    }
}

pub proof fn lemma_split_nonempty(s: Seq<char>, sep: spec_fn(char) -> bool)
    ensures
        split_when(s, sep).len() >= 1,
    decreases s.len(),
{
    if s.len() > 0 {
        lemma_split_nonempty(s.drop_last(), sep);
    }
}

/// Appending text without separators extends the last part.
pub proof fn lemma_split_append(s: Seq<char>, t: Seq<char>, sep: spec_fn(char) -> bool)
    requires
        forall|i: int| 0 <= i < t.len() ==> !sep(#[trigger] t[i]),
    ensures
        split_when(s + t, sep) == split_when(s, sep).update(
            split_when(s, sep).len() - 1,
            split_when(s, sep).last() + t,
        ),
    decreases t.len(),
{
    lemma_split_nonempty(s, sep);
    if t.len() == 0 {
        assert(s + t =~= s);
        assert(split_when(s, sep).last() + t =~= split_when(s, sep).last());
        assert(split_when(s, sep).update(split_when(s, sep).len() - 1, split_when(s, sep).last())
            =~= split_when(s, sep));
    } else {
        let t0 = t.drop_last();
        lemma_split_append(s, t0, sep);
        assert((s + t).drop_last() =~= s + t0);
        assert((s + t).last() == t.last());
        lemma_split_nonempty(s + t0, sep);
        let r = split_when(s, sep);
        let r2 = split_when(s + t0, sep);
        assert(!sep(t[t.len() - 1]));
        assert(r2 == r.update(r.len() - 1, r.last() + t0));
        assert(r2.len() == r.len());
        assert(r2.last() == r.last() + t0);
        assert(split_when(s + t, sep) == r2.update(r2.len() - 1, r2.last().push(t.last())));
        assert((r.last() + t0).push(t.last()) =~= r.last() + t);
        assert(split_when(s + t, sep) =~= r.update(r.len() - 1, r.last() + t));
    }
}

/// The predicate "is the character `c`".
pub open spec fn char_is(c: char) -> spec_fn(char) -> bool {
    |x: char| x == c
}

/// The predicate "is whitespace".
pub open spec fn ws_pred() -> spec_fn(char) -> bool {
    |x: char| is_ws(x)
}

/// The predicate "is not empty".
pub open spec fn nonempty() -> spec_fn(Seq<char>) -> bool {
    |w: Seq<char>| w.len() > 0
}

/// `str::split` at a single character.
pub open spec fn split_char(s: Seq<char>, c: char) -> Seq<Seq<char>> {
    split_when(s, char_is(c))
}

/// `str::split_whitespace`: the parts between whitespace, empty ones dropped.
pub open spec fn words(s: Seq<char>) -> Seq<Seq<char>> {
    split_when(s, ws_pred()).filter(nonempty())
}

/// `str::lines`: split at `\n`; a line that was ended by `\n` loses one
/// trailing `\r`; the empty piece after a final `\n` (or of an empty text) is
/// not a line.
pub open spec fn lines(s: Seq<char>) -> Seq<Seq<char>> {
    let p = split_char(s, '\n');
    let n = p.len() as int;
    let count = if p.last().len() == 0 { n - 1 } else { n };
    Seq::new(count as nat, |i: int| if i < n - 1 { strip_cr(p[i]) } else { p[i] })
}

pub open spec fn strip_cr(l: Seq<char>) -> Seq<char> {
    if l.len() > 0 && l.last() == '\r' {
        l.drop_last()
    } else {
        l
    }
}

/// Removes characters satisfying `p` from the front.
pub open spec fn trim_start_when(s: Seq<char>, p: spec_fn(char) -> bool) -> Seq<char>
    decreases s.len(),
{
    if s.len() > 0 && p(s[0]) {
        trim_start_when(s.drop_first(), p)
    } else {
        s
    }
}

/// Removes characters satisfying `p` from the back.
pub open spec fn trim_end_when(s: Seq<char>, p: spec_fn(char) -> bool) -> Seq<char>
    decreases s.len(),
{
    if s.len() > 0 && p(s.last()) {
        trim_end_when(s.drop_last(), p)
    } else {
        s
    }
}

/// `str::trim_matches` with a predicate.
pub open spec fn trim_when(s: Seq<char>, p: spec_fn(char) -> bool) -> Seq<char> {
    trim_end_when(trim_start_when(s, p), p)
}

/// `str::trim`.
pub open spec fn trim_ws(s: Seq<char>) -> Seq<char> {
    trim_when(s, ws_pred())
}

pub open spec fn starts_with(s: Seq<char>, prefix: Seq<char>) -> bool {
    prefix.len() <= s.len() && s.subrange(0, prefix.len() as int) == prefix
}

pub open spec fn ends_with(s: Seq<char>, suffix: Seq<char>) -> bool {
    suffix.len() <= s.len() && s.subrange(s.len() - suffix.len(), s.len() as int) == suffix
}

/// `needle` occurs in `hay` at position `i`.
pub open spec fn occurs_at(hay: Seq<char>, needle: Seq<char>, i: int) -> bool {
    0 <= i && i + needle.len() <= hay.len() && hay.subrange(i, i + needle.len()) == needle
}

/// `str::contains` with a string pattern.
pub open spec fn contains_text(hay: Seq<char>, needle: Seq<char>) -> bool {
    exists|i: int| occurs_at(hay, needle, i)
}

/// Joins `parts` with `sep` between neighbours.
pub open spec fn join(parts: Seq<Seq<char>>, sep: Seq<char>) -> Seq<char>
    decreases parts.len(),
{
    if parts.len() == 0 {
        Seq::empty()
    } else if parts.len() == 1 {
        parts[0]
    } else {
        join(parts.drop_last(), sep) + sep + parts.last()
    }
}

pub open spec fn views(v: Seq<Vec<char>>) -> Seq<Seq<char>> {
    v.map_values(|p: Vec<char>| p@)
}

/// Splits at every `sep`, keeping empty parts (`str::split` with a `char`).
pub fn split_on(s: &[char], sep: char) -> (parts: Vec<Vec<char>>)
    ensures
        views(parts@) == split_char(s@, sep),
{
    let mut parts: Vec<Vec<char>> = Vec::new();
    let mut cur: Vec<char> = Vec::new();
    for i in 0..s.len()
        invariant
            views(parts@).push(cur@) == split_char(s@.take(i as int), sep),
    {
        let ghost before = s@.take(i as int);
        proof {
            assert(s@.take(i + 1).drop_last() == before);
            lemma_split_nonempty(before, char_is(sep));
        }
        let c = s[i];
        if c == sep {
            parts.push(cur);
            cur = Vec::new();
            assert(views(parts@).push(cur@) == split_char(s@.take(i + 1), sep));
        } else {
            cur.push(c);
            assert(views(parts@).push(cur@) == split_char(s@.take(i + 1), sep));
        }
    }
    assert(s@.take(s@.len() as int) == s@);
    parts.push(cur);
    parts
}


/// `str::split_whitespace`.
pub fn words_of(s: &[char]) -> (ws: Vec<Vec<char>>)
    ensures
        views(ws@) == words(s@),
{
    // First split at every whitespace character, then drop the empty parts.
    let mut parts: Vec<Vec<char>> = Vec::new();
    let mut cur: Vec<char> = Vec::new();
    for i in 0..s.len()
        invariant
            views(parts@).push(cur@) == split_when(s@.take(i as int), ws_pred()),
    {
        let ghost before = s@.take(i as int);
        proof {
            assert(s@.take(i + 1).drop_last() == before);
            lemma_split_nonempty(before, ws_pred());
        }
        let c = s[i];
        if is_whitespace(c) {
            parts.push(cur);
            cur = Vec::new();
            assert(views(parts@).push(cur@) == split_when(s@.take(i + 1), ws_pred()));
        } else {
            cur.push(c);
            assert(views(parts@).push(cur@) == split_when(s@.take(i + 1), ws_pred()));
        }
    }
    assert(s@.take(s@.len() as int) == s@);
    parts.push(cur);
    let ghost all = views(parts@);
    assert(all == split_when(s@, ws_pred()));
        let mut ws: Vec<Vec<char>> = Vec::new();
    let mut k: usize = 0;
    while k < parts.len()
        invariant
            k <= parts.len(),
            all == views(parts@),
            views(ws@) == all.take(k as int).filter(nonempty()),
        decreases parts.len() - k,
    {
        proof {
            reveal(Seq::filter);
            assert(all.take(k + 1).drop_last() == all.take(k as int));
        }
        if parts[k].len() > 0 {
            ws.push(parts[k].clone());
        }
        k = k + 1;
    }
    assert(all.take(parts.len() as int) == all);
    assert(views(ws@) == all.filter(nonempty()));
    ws
}

/// `str::lines`.
pub fn lines_of(s: &[char]) -> (ls: Vec<Vec<char>>)
    ensures
        views(ls@) == lines(s@),
{
    let parts = split_on(s, '\n');
    let ghost p = split_char(s@, '\n');
    proof {
        lemma_split_nonempty(s@, char_is('\n'));
        assert(views(parts@).len() == parts@.len());
    }
    let n = parts.len();
    let count = if parts[n - 1].len() == 0 { n - 1 } else { n };
    let mut ls: Vec<Vec<char>> = Vec::new();
    for i in 0..count
        invariant
            n == parts.len(),
            n >= 1,
            count <= n,
            views(parts@) == p,
            p == split_char(s@, '\n'),
            count == lines(s@).len(),
            views(ls@) == lines(s@).take(i as int),
    {
        let part = &parts[i];
        let mut line: Vec<char> = part.clone();
        assert(line@ == parts@[i as int]@);
        if i < n - 1 && line.len() > 0 && line[line.len() - 1] == '\r' {
            line.pop();
        }
        proof {
            assert(p[i as int] == parts@[i as int]@);
            let expected = if i < n - 1 { strip_cr(p[i as int]) } else { p[i as int] };
            assert(lines(s@)[i as int] == expected);
            if i < n - 1 && parts@[i as int]@.len() > 0 && parts@[i as int]@.last() == '\r' {
                assert(line@ == parts@[i as int]@.drop_last());
            }
            assert(line@ == expected);
        }
        let ghost old_ls = ls@;
        let ghost line_view = line@;
        ls.push(line);
        assert(views(ls@) =~= views(old_ls).push(line_view));
        assert(views(ls@) =~= lines(s@).take(i + 1));
    }
    assert(lines(s@).take(count as int) == lines(s@));
    ls
}

/// `str::trim_matches` removing, at both ends, every character for which
/// `keep` is false.
pub fn trim_ws_chars(s: &[char]) -> (r: Vec<char>)
    ensures
        r@ == trim_ws(s@),
{
    let mut lo: usize = 0;
    assert(s@.skip(0) == s@);
    while lo < s.len() && is_whitespace(s[lo])
        invariant
            lo <= s.len(),
            trim_start_when(s@, ws_pred()) == trim_start_when(s@.skip(lo as int), ws_pred()),
        decreases s.len() - lo,
    {
        assert(s@.skip(lo as int).drop_first() == s@.skip(lo + 1));
        assert(s@.skip(lo as int)[0] == s@[lo as int]);
        assert(is_ws(s@[lo as int]));
        lo = lo + 1;
    }
    let mut hi: usize = s.len();
    let ghost start = s@.skip(lo as int);
    assert(trim_start_when(s@, ws_pred()) == start);
    while hi > lo && is_whitespace(s[hi - 1])
        invariant
            lo <= hi <= s.len(),
            start == s@.skip(lo as int),
            trim_end_when(start, ws_pred()) == trim_end_when(s@.subrange(lo as int, hi as int), ws_pred()),
        decreases hi,
    {
        assert(s@.subrange(lo as int, hi as int).drop_last() == s@.subrange(lo as int, hi - 1));
        assert(s@.subrange(lo as int, hi as int).last() == s@[hi - 1]);

        hi = hi - 1;
    }
    let mut r: Vec<char> = Vec::new();
    for i in lo..hi
        invariant
            lo <= hi <= s.len(),
            r@ == s@.subrange(lo as int, i as int),
    {
        r.push(s[i]);
        assert(s@.subrange(lo as int, i + 1) == s@.subrange(lo as int, i as int).push(s@[i as int]));
    }
    assert(trim_start_when(s@, ws_pred()) == start);
    r
}


/// `s` begins with `prefix`.
pub fn has_prefix(s: &[char], prefix: &[char]) -> (b: bool)
    ensures
        b == starts_with(s@, prefix@),
{
    if prefix.len() > s.len() {
        return false;
    }
    for i in 0..prefix.len()
        invariant
            prefix.len() <= s.len(),
            forall|j: int| 0 <= j < i ==> s@[j] == prefix@[j],
    {
        if s[i] != prefix[i] {
            assert(s@.subrange(0, prefix@.len() as int)[i as int] != prefix@[i as int]);
            return false;
        }
    }
    assert(s@.subrange(0, prefix@.len() as int) =~= prefix@);
    true
}

/// `s` ends with `suffix`.
pub fn has_suffix(s: &[char], suffix: &[char]) -> (b: bool)
    ensures
        b == ends_with(s@, suffix@),
{
    if suffix.len() > s.len() {
        return false;
    }
    let off = s.len() - suffix.len();
    for i in 0..suffix.len()
        invariant
            suffix.len() <= s.len(),
            off == s.len() - suffix.len(),
            forall|j: int| 0 <= j < i ==> s@[off + j] == suffix@[j],
    {
        if s[off + i] != suffix[i] {
            assert(s@.subrange(off as int, s@.len() as int)[i as int] != suffix@[i as int]);
            return false;
        }
    }
    assert(s@.subrange(off as int, s@.len() as int) =~= suffix@);
    true
}

/// `needle` occurs at position `at` of `hay`.
pub fn matches_at(hay: &[char], needle: &[char], at: usize) -> (b: bool)
    ensures
        b == occurs_at(hay@, needle@, at as int),
{
    if at > hay.len() || needle.len() > hay.len() - at {
        return false;
    }
    for i in 0..needle.len()
        invariant
            at + needle.len() <= hay.len(),
            forall|j: int| 0 <= j < i ==> hay@[at + j] == needle@[j],
    {
        if hay[at + i] != needle[i] {
            assert(hay@.subrange(at as int, at + needle@.len())[i as int] != needle@[i as int]);
            return false;
        }
    }
    assert(hay@.subrange(at as int, at + needle@.len()) =~= needle@);
    true
}

/// `str::contains` with a text pattern.
pub fn contains_chars(hay: &[char], needle: &[char]) -> (b: bool)
    ensures
        b == contains_text(hay@, needle@),
{
    let mut at: usize = 0;
    while at < hay.len()
        invariant
            at <= hay.len(),
            forall|j: int| 0 <= j < at ==> !occurs_at(hay@, needle@, j),
        decreases hay.len() - at,
    {
        if matches_at(hay, needle, at) {
            return true;
        }
        at = at + 1;
    }
    if matches_at(hay, needle, at) {
        return true;
    }
    assert forall|j: int| !occurs_at(hay@, needle@, j) by {
        if 0 <= j <= at {
        }
    }
    false
}

/// The two character sequences are the same.
pub fn same_chars(a: &[char], b: &[char]) -> (r: bool)
    ensures
        r == (a@ == b@),
{
    if a.len() != b.len() {
        return false;
    }
    for i in 0..a.len()
        invariant
            a.len() == b.len(),
            forall|j: int| 0 <= j < i ==> a@[j] == b@[j],
    {
        if a[i] != b[i] {
            return false;
        }
    }
    assert(a@ =~= b@);
    true
}

/// The two texts are the same.
pub fn same_text(a: &str, b: &str) -> (r: bool)
    ensures
        r == (a@ == b@),
{
    let x = chars_of(a);
    let y = chars_of(b);
    same_chars(x.as_slice(), y.as_slice())
}

/// The two texts are equal when ASCII letters are compared without case.
pub open spec fn same_ignoring_ascii_case(a: Seq<char>, b: Seq<char>) -> bool {
    a.len() == b.len() && forall|i: int| 0 <= i < a.len() ==> lower_ascii(#[trigger] a[i]) == lower_ascii(b[i])
}

/// Compares two texts ignoring the case of ASCII letters
/// (`str::eq_ignore_ascii_case`).
pub fn eq_ignore_ascii_case(a: &str, b: &str) -> (r: bool)
    ensures
        r == same_ignoring_ascii_case(a@, b@),
{
    let x = chars_of(a);
    let y = chars_of(b);
    if x.len() != y.len() {
        return false;
    }
    for i in 0..x.len()
        invariant
            x@ == a@,
            y@ == b@,
            x.len() == y.len(),
            forall|j: int| 0 <= j < i ==> lower_ascii(#[trigger] a@[j]) == lower_ascii(b@[j]),
    {
        if to_lower_ascii(x[i]) != to_lower_ascii(y[i]) {
            return false;
        }
    }
    true
}

/// `dir` joined with the relative name `name` as `Path::join` does on
/// Windows: a backslash goes between them unless `dir` is empty, already ends
/// with a separator, or is a bare drive such as `C:`.
pub open spec fn join_path(dir: Seq<char>, name: Seq<char>) -> Seq<char> {
    if dir.len() == 0 || dir.last() == '\\' || dir.last() == '/' || (dir.len() == 2 && dir[1] == ':'
        && (('A' <= dir[0] && dir[0] <= 'Z') || ('a' <= dir[0] && dir[0] <= 'z'))) {
        dir + name
    } else {
        dir + seq!['\\'] + name
    }
}

/// Joins a directory and a relative name into one path.
pub fn path_join(dir: &str, name: &str) -> (r: String)
    ensures
        r@ == join_path(dir@, name@),
{
    let d = chars_of(dir);
    let n = d.len();
    let mut r = string_of(d.as_slice());
    let drive = n == 2 && d[1] == ':' && (('A' <= d[0] && d[0] <= 'Z') || ('a' <= d[0] && d[0] <= 'z'));
    if !(n == 0 || d[n - 1] == '\\' || d[n - 1] == '/' || drive) {
        push_char(&mut r, '\\');
    }
    r.append(name);
    r
}

/// Appends the characters of `v` to `s`.
pub fn push_chars(s: &mut String, v: &[char])
    ensures
        final(s)@ == old(s)@ + v@,
{
    for i in 0..v.len()
        invariant
            s@ == old(s)@ + v@.take(i as int),
    {
        push_char(s, v[i]);
        assert(v@.take(i + 1) == v@.take(i as int).push(v@[i as int]));
    }
    assert(v@.take(v@.len() as int) == v@);
}

/// Joins `parts` with `sep` between neighbours (`[&str]::join`).
pub fn join_chars(parts: &Vec<Vec<char>>, sep: &[char]) -> (r: Vec<char>)
    ensures
        r@ == join(views(parts@), sep@),
{
    let mut r: Vec<char> = Vec::new();
    for i in 0..parts.len()
        invariant
            r@ == join(views(parts@).take(i as int), sep@),
    {
        let ghost before = views(parts@).take(i as int);
        assert(views(parts@).take(i + 1).drop_last() == before);
        if i > 0 {
            for k in 0..sep.len()
                invariant
                    r@ == join(before, sep@) + sep@.take(k as int),
            {
                r.push(sep[k]);
                assert(sep@.take(k + 1) == sep@.take(k as int).push(sep@[k as int]));
            }
            assert(sep@.take(sep@.len() as int) == sep@);
        }
        let part = &parts[i];
        let ghost mid = r@;
        for k in 0..part.len()
            invariant
                r@ == mid + part@.take(k as int),
        {
            r.push(part[k]);
            assert(part@.take(k + 1) == part@.take(k as int).push(part@[k as int]));
        }
        assert(part@.take(part@.len() as int) == part@);
        assert(views(parts@).take(i + 1).last() == part@);
        if i == 0 {
            assert(views(parts@).take(1).len() == 1);
        }
    }
    assert(views(parts@).take(parts@.len() as int) == views(parts@));
    r
}

pub open spec fn digit_value(c: char) -> nat {
    ((c as u32) - 48) as nat
}

/// The number that the decimal digits `d` spell.
pub open spec fn digits_value(d: Seq<char>) -> nat
    decreases d.len(),
{
    if d.len() == 0 {
        0
    } else {
        digits_value(d.drop_last()) * 10 + digit_value(d.last())
    }
}

pub open spec fn all_digits(d: Seq<char>) -> bool {
    forall|i: int| 0 <= i < d.len() ==> is_digit(#[trigger] d[i])
}

/// What `u8::from_str` / `u32::from_str` accept: an optional `+`, then one or
/// more decimal digits whose value is at most `max`.
pub open spec fn parse_unsigned(s: Seq<char>, max: nat) -> Option<nat> {
    let d = if s.len() > 0 && s[0] == '+' {
        s.drop_first()
    } else {
        s
    };
    if d.len() > 0 && all_digits(d) && digits_value(d) <= max {
        Some(digits_value(d))
    } else {
        None
    }
}

proof fn lemma_digits_value_grows(d: Seq<char>, k: int)
    requires
        0 <= k <= d.len(),
    ensures
        digits_value(d.take(k)) <= digits_value(d),
    decreases d.len(),
{
    if k < d.len() {
        assert(d.drop_last().take(k) == d.take(k));
        lemma_digits_value_grows(d.drop_last(), k);
    } else {
        assert(d.take(k) == d);
    }
}

/// Parses an unsigned decimal number no larger than `max`, as `from_str` of
/// the matching unsigned integer type does.
pub fn parse_decimal(s: &[char], max: u32) -> (r: Option<u32>)
    ensures
        match r {
            Some(v) => parse_unsigned(s@, max as nat) == Some(v as nat),
            None => parse_unsigned(s@, max as nat) is None,
        },
{
    let start: usize = if s.len() > 0 && s[0] == '+' { 1 } else { 0 };
    let ghost d = s@.skip(start as int);
    assert(d == (if s@.len() > 0 && s@[0] == '+' { s@.drop_first() } else { s@ }));
    if start == s.len() {
        return None;
    }
    let mut v: u64 = 0;
    let mut i: usize = start;
    while i < s.len()
        invariant
            start <= i <= s.len(),
            d == s@.skip(start as int),
            d == (if s@.len() > 0 && s@[0] == '+' { s@.drop_first() } else { s@ }),
            d.len() > 0,
            v == digits_value(d.take(i - start)),
            v <= max,
            all_digits(d.take(i - start)),
        decreases s.len() - i,
    {
        let c = s[i];
        assert(d[i - start] == c);
        if c < '0' || c > '9' {
            assert(!is_digit(d[i - start]));
            assert(!all_digits(d));
            return None;
        }
        let dv: u64 = (c as u64) - 48;
        assert(d.take(i - start + 1).drop_last() == d.take(i - start));
        v = v * 10 + dv;
        i = i + 1;
        assert(all_digits(d.take(i - start)));
        if v > max as u64 {
            proof {
                lemma_digits_value_grows(d, i - start);
                assert(digits_value(d) > max);
            }
            return None;
        }
    }
    assert(d.take(i - start) == d);
    Some(v as u32)
}

pub open spec fn digit_char(n: nat) -> char {
    ((n + 48) as u32) as char
}

/// The decimal digits of `n` (no sign, no leading zeros), as `Display`
/// prints an unsigned integer.
pub open spec fn decimal(n: nat) -> Seq<char>
    decreases n,
{
    if n < 10 {
        seq![digit_char(n)]
    } else {
        decimal(n / 10).push(digit_char(n % 10))
    }
}

/// The decimal digits of `n` are digits, at least one, and spell `n`.
pub proof fn lemma_decimal_digits(n: nat)
    ensures
        decimal(n).len() > 0,
        all_digits(decimal(n)),
        digits_value(decimal(n)) == n,
    decreases n,
{
    let m = n % 10;
    assert(digit_value(digit_char(m)) == m);
    if n < 10 {
        assert(decimal(n).drop_last() =~= Seq::<char>::empty());
        assert(decimal(n).last() == digit_char(m));
        assert(digits_value(decimal(n)) == digits_value(decimal(n).drop_last()) * 10 + digit_value(
            decimal(n).last(),
        ));
    } else {
        lemma_decimal_digits(n / 10);
        assert(decimal(n).drop_last() =~= decimal(n / 10));
        assert(decimal(n).last() == digit_char(m));
        assert((n / 10) * 10 + m == n);
        assert(digits_value(decimal(n)) == digits_value(decimal(n).drop_last()) * 10 + digit_value(
            decimal(n).last(),
        ));
    }
}

/// Appends the decimal digits of `n`.
pub fn push_decimal(s: &mut String, n: u64)
    ensures
        final(s)@ == old(s)@ + decimal(n as nat),
    decreases n,
{
    if n >= 10 {
        push_decimal(s, n / 10);
    }
    let d: u8 = (n % 10) as u8;
    push_char(s, (d + 48) as char);
    proof {
        assert(digit_char((n % 10) as nat) == ((d + 48) as char));
    }
}


/// The Unicode lowercase mapping of a text, which `str::to_lowercase` computes.
pub uninterp spec fn unicode_lowercase(s: Seq<char>) -> Seq<char>;

/// The text that `String::from_utf8_lossy` decodes from `bytes`: valid UTF-8
/// decoded, each invalid sequence replaced by U+FFFD.
pub uninterp spec fn utf8_lossy(bytes: Seq<u8>) -> Seq<char>;

/// The text `String::from_utf8_lossy` gives for `bytes`: valid UTF-8
/// decoded exactly, any other input as `utf8_lossy` names it.
pub open spec fn lossy_text(bytes: Seq<u8>) -> Seq<char> {
    if valid_utf8(bytes) {
        decode_utf8(bytes)
    } else {
        utf8_lossy(bytes)
    }
}

/// Calls `str::to_lowercase`. Claimed: the result is `unicode_lowercase` of
/// the input; on an ASCII input exactly `A`..`Z` change, to `a`..`z`; and an
/// ASCII prefix of the input comes out first, lowercased in the same way
/// (`str::to_lowercase` maps character by character, and only `Σ` looks at
/// its neighbours). Nothing is claimed of the mapping of other characters.
#[verifier::external_body]
pub(crate) fn to_lowercase(s: &str) -> (r: String)
    ensures
        r@ == unicode_lowercase(s@),
        is_ascii_chars(s@) ==> r@ == s@.map_values(|c: char| lower_ascii(c)),
        forall|k: int|
            #![trigger s@.take(k)]
            0 <= k <= s@.len() && is_ascii_chars(s@.take(k)) ==> k <= r@.len() && r@.take(k)
                == s@.take(k).map_values(|c: char| lower_ascii(c)),
{
    s.to_lowercase()
}

/// Calls `String::from_utf8_lossy`. Claimed: the result is `utf8_lossy` of the
/// bytes, and a valid UTF-8 input is decoded exactly. How invalid sequences
/// are replaced is left to the name.
#[verifier::external_body]
pub(crate) fn from_utf8_lossy(bytes: &[u8]) -> (r: String)
    ensures
        r@ == utf8_lossy(bytes@),
        valid_utf8(bytes@) ==> r@ == decode_utf8(bytes@),
{
    String::from_utf8_lossy(bytes).to_string()
}


/// Removes every trailing `c` (`str::trim_end_matches` with a `char`).
pub fn trim_end_char(s: &[char], c: char) -> (r: Vec<char>)
    ensures
        r@ == trim_end_when(s@, char_is(c)),
{
    let mut hi: usize = s.len();
    assert(s@.subrange(0, hi as int) == s@);
    while hi > 0 && s[hi - 1] == c
        invariant
            hi <= s.len(),
            trim_end_when(s@, char_is(c)) == trim_end_when(s@.subrange(0, hi as int), char_is(c)),
        decreases hi,
    {
        assert(s@.subrange(0, hi as int).drop_last() == s@.subrange(0, hi - 1));
        assert(s@.subrange(0, hi as int).last() == s@[hi - 1]);
        hi = hi - 1;
    }
    let mut r: Vec<char> = Vec::new();
    for i in 0..hi
        invariant
            hi <= s.len(),
            r@ == s@.subrange(0, i as int),
    {
        r.push(s[i]);
        assert(s@.subrange(0, i + 1) == s@.subrange(0, i as int).push(s@[i as int]));
    }
    r
}

/// Appends the bytes of `b` to `out`.
pub fn push_bytes(out: &mut Vec<u8>, b: &[u8])
    ensures
        final(out)@ == old(out)@ + b@,
{
    for i in 0..b.len()
        invariant
            out@ == old(out)@ + b@.take(i as int),
    {
        out.push(b[i]);
        assert(b@.take(i + 1) == b@.take(i as int).push(b@[i as int]));
    }
    assert(b@.take(b@.len() as int) == b@);
}

} // verus!
