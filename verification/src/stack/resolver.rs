//! A small DNS responder for `*.test` names: every `<project>.test` query is
//! answered with the address registered for the project, or 127.0.0.1.

use vstd::prelude::*;
use vstd::utf8::{
    encode_scalar, encode_utf8, encode_utf8_decode_utf8, encode_utf8_valid_utf8,
    has_width_1_encoding,
};

use crate::text::{
    split_when,
    chars_of, char_is, from_utf8_lossy, join, join_chars, parse_decimal, parse_unsigned,
    push_bytes, push_char, same_chars, same_text, split_char, split_on, string_of,
    to_lowercase, trim_end_char, trim_end_when, unicode_lowercase, views, lossy_text,
    lemma_split_append, lemma_split_nonempty,
};

verus! {

/// The labels read from `pos` on, as the resolver reads a query name: a zero
/// byte ends the name, a byte of 192 or more is a compression pointer whose
/// low 14 bits give where the rest of the name is read (as a whole, dotted
/// name), any other byte is the length of a label that follows.
/// `fuel` bounds how many pointers are followed: `None` means it ran out;
/// `Some(None)` means the bytes are malformed.
pub open spec fn qname_from(data: Seq<u8>, pos: int, fuel: nat) -> Option<
    Option<(Seq<Seq<char>>, int)>,
>
    decreases fuel, data.len() - pos,
{
    if pos < 0 || pos >= data.len() {
        Some(None)
    } else if data[pos] == 0 {
        Some(Some((Seq::empty(), pos + 1)))
    } else if data[pos] >= 192 {
        if pos + 2 > data.len() {
            Some(None)
        } else if fuel == 0 {
            None
        } else {
            let target = (data[pos] as int * 256 + data[pos + 1] as int) % 16384;
            match qname_from(data, target, (fuel - 1) as nat) {
                None => None,
                Some(inner) => Some(
                    Some(
                        (
                            match inner {
                                Some((labels, _)) => seq![dotted(labels)],
                                None => Seq::empty(),
                            },
                            pos + 2,
                        ),
                    ),
                ),
            }
        }
    } else {
        let len = data[pos] as int;
        if pos + 1 + len > data.len() {
            Some(None)
        } else {
            match qname_from(data, pos + 1 + len, fuel) {
                None => None,
                Some(None) => Some(None),
                Some(Some((rest, end))) => Some(
                    Some((seq![lossy_text(data.subrange(pos + 1, pos + 1 + len))] + rest, end)),
                ),
            }
        }
    }
}

/// Labels joined with dots, with a final dot.
pub open spec fn dotted(labels: Seq<Seq<char>>) -> Seq<char> {
    join(labels, seq!['.']).push('.')
}

/// Reading a name from `offset` ends: the compression pointers met do not
/// lead round in a circle.
pub open spec fn qname_terminates(data: Seq<u8>, offset: int) -> bool {
    exists|fuel: nat| qname_from(data, offset, fuel) is Some
}

/// The dotted name read from `offset` and the offset after it, or `None` for
/// malformed bytes.
pub open spec fn qname_at(data: Seq<u8>, offset: int) -> Option<(Seq<char>, int)> {
    let fuel = choose|fuel: nat| qname_from(data, offset, fuel) is Some;
    match qname_from(data, offset, fuel).unwrap() {
        Some((labels, end)) => Some((dotted(labels), end)),
        None => None,
    }
}

pub open spec fn opt_name_view(r: Option<(String, usize)>) -> Option<(Seq<char>, int)> {
    match r {
        Some((s, e)) => Some((s@, e as int)),
        None => None,
    }
}

fn dotted_exec(labels: &Vec<Vec<char>>) -> (r: Vec<char>)
    ensures
        r@ == dotted(views(labels@)),
{
    let dot: Vec<char> = vec!['.'];
    assert(dot@ == seq!['.']);
    let mut r = join_chars(labels, dot.as_slice());
    r.push('.');
    r
}

fn read_labels(data: &[u8], pos: usize, Ghost(fuel): Ghost<nat>) -> (r: Option<(Vec<Vec<char>>, usize)>)
    requires
        qname_from(data@, pos as int, fuel) is Some,
    ensures
        match qname_from(data@, pos as int, fuel).unwrap() {
            None => r is None,
            Some((labels, end)) => r matches Some((v, e)) && views(v@) == labels && e == end,
        },
    decreases fuel, data@.len() - pos,
{
    if pos >= data.len() {
        return None;
    }
    let len = data[pos];
    if len == 0 {
        let v: Vec<Vec<char>> = Vec::new();
        assert(views(v@) =~= Seq::<Seq<char>>::empty());
        return Some((v, pos + 1));
    }
    if len >= 192 {
        if data.len() - pos < 2 {
            return None;
        }
        let hi: usize = (data[pos] as usize) % 64;
        let lo: usize = data[pos + 1] as usize;
        let target: usize = hi * 256 + lo;
        proof {
            let a = data@[pos as int] as int;
            let b = data@[pos + 1] as int;
            assert((a * 256 + b) % 16384 == (a % 64) * 256 + b) by (nonlinear_arith)
                requires
                    0 <= a < 256,
                    0 <= b < 256,
            ;
        }
        let inner = read_labels(data, target, Ghost((fuel - 1) as nat));
        let mut parts: Vec<Vec<char>> = Vec::new();
        match inner {
            Some((labels, _)) => {
                let name = dotted_exec(&labels);
                parts.push(name);
            },
            None => {},
        }
        assert(views(parts@) =~= (match qname_from(data@, target as int, (fuel - 1) as nat).unwrap() {
            Some((labels, _)) => seq![dotted(labels)],
            None => Seq::<Seq<char>>::empty(),
        }));
        return Some((parts, pos + 2));
    }
    let n = len as usize;
    if data.len() - pos - 1 < n {
        return None;
    }
    let rest = read_labels(data, pos + 1 + n, Ghost(fuel));
    match rest {
        None => None,
        Some((labels, end)) => {
            let bytes = &data[pos + 1..pos + 1 + n];
            assert(bytes@ == data@.subrange(pos + 1, pos + 1 + n));
            let label = from_utf8_lossy(bytes);
            let mut out: Vec<Vec<char>> = Vec::new();
            out.push(chars_of(label.as_str()));
            let ghost head = views(out@);
            let mut k: usize = 0;
            while k < labels.len()
                invariant
                    k <= labels.len(),
                    views(out@) == head + views(labels@).take(k as int),
                decreases labels.len() - k,
            {
                let l = labels[k].clone();
                assert(l@ == labels@[k as int]@);
                let ghost before = out@;
                out.push(l);
                assert(views(out@) =~= views(before).push(labels@[k as int]@));
                assert(views(labels@).take(k + 1) == views(labels@).take(k as int).push(
                    labels@[k as int]@,
                ));
                assert(views(out@) =~= head + views(labels@).take(k + 1));
                k = k + 1;
            }
            assert(views(labels@).take(labels.len() as int) == views(labels@));
            Some((out, end))
        },
    }
}

fn labels_end_within(data: &[u8], pos: usize, fuel: usize) -> (b: bool)
    ensures
        b == (qname_from(data@, pos as int, fuel as nat) is Some),
    decreases fuel, data@.len() - pos,
{
    if pos >= data.len() {
        return true;
    }
    let len = data[pos];
    if len == 0 {
        return true;
    }
    if len >= 192 {
        if data.len() - pos < 2 {
            return true;
        }
        if fuel == 0 {
            return false;
        }
        let hi: usize = (data[pos] as usize) % 64;
        let lo: usize = data[pos + 1] as usize;
        let target: usize = hi * 256 + lo;
        proof {
            let a = data@[pos as int] as int;
            let b = data@[pos + 1] as int;
            assert((a * 256 + b) % 16384 == (a % 64) * 256 + b) by (nonlinear_arith)
                requires
                    0 <= a < 256,
                    0 <= b < 256,
            ;
        }
        return labels_end_within(data, target, fuel - 1);
    }
    let n = len as usize;
    if data.len() - pos - 1 < n {
        return true;
    }
    labels_end_within(data, pos + 1 + n, fuel)
}

/// Where reading a name from `pos` meets a compression pointer: the
/// position it points to; `None` when the name ends, or turns out malformed,
/// first.
pub open spec fn next_pointer(data: Seq<u8>, pos: int) -> Option<int>
    decreases data.len() - pos,
{
    if pos < 0 || pos >= data.len() {
        None
    } else if data[pos] == 0 {
        None
    } else if data[pos] >= 192 {
        if pos + 2 > data.len() {
            None
        } else {
            Some((data[pos] as int * 256 + data[pos + 1] as int) % 16384)
        }
    } else {
        let len = data[pos] as int;
        if pos + 1 + len > data.len() {
            None
        } else {
            next_pointer(data, pos + 1 + len)
        }
    }
}

proof fn lemma_qname_step(data: Seq<u8>, pos: int, fuel: nat)
    ensures
        (qname_from(data, pos, fuel) is Some) == (match next_pointer(data, pos) {
            None => true,
            Some(t) => fuel > 0 && qname_from(data, t, (fuel - 1) as nat) is Some,
        }),
        next_pointer(data, pos) is Some ==> 0 <= pos < data.len(),
    decreases data.len() - pos,
{
    if 0 <= pos < data.len() && data[pos] != 0 && data[pos] < 192 {
        let len = data[pos] as int;
        if pos + 1 + len <= data.len() {
            lemma_qname_step(data, pos + 1 + len, fuel);
        }
    }
}

/// The position reached after following `k` compression pointers from `pos`.
pub open spec fn chain_pos(data: Seq<u8>, pos: int, k: nat) -> int
    decreases k,
{
    if k == 0 {
        pos
    } else {
        match next_pointer(data, chain_pos(data, pos, (k - 1) as nat)) {
            Some(t) => t,
            None => -1,
        }
    }
}

proof fn lemma_chain_stuck(data: Seq<u8>, pos: int, n: nat, k: nat)
    requires
        !(qname_from(data, pos, n) is Some),
        k <= n,
    ensures
        next_pointer(data, chain_pos(data, pos, k)) is Some,
        !(qname_from(data, chain_pos(data, pos, k), (n - k) as nat) is Some),
    decreases k,
{
    if k == 0 {
        lemma_qname_step(data, pos, n);
    } else {
        lemma_chain_stuck(data, pos, n, (k - 1) as nat);
        let prev = chain_pos(data, pos, (k - 1) as nat);
        lemma_qname_step(data, prev, (n - (k - 1)) as nat);
        let here = chain_pos(data, pos, k);
        lemma_qname_step(data, here, (n - k) as nat);
    }
}

proof fn lemma_cycle_never_ends(data: Seq<u8>, pos: int, n: nat, i: nat, j: nat, fuel: nat, m: nat)
    requires
        i < j <= n,
        chain_pos(data, pos, i) == chain_pos(data, pos, j),
        forall|k: nat| k <= n ==> next_pointer(data, #[trigger] chain_pos(data, pos, k)) is Some,
        i <= m < j,
    ensures
        !(qname_from(data, chain_pos(data, pos, m), fuel) is Some),
    decreases fuel, j - m,
{
    let q = chain_pos(data, pos, m);
    lemma_qname_step(data, q, fuel);
    assert(next_pointer(data, chain_pos(data, pos, m)) is Some);
    if fuel > 0 {
        let next = chain_pos(data, pos, m + 1);
        assert(next_pointer(data, q) == Some(next));
        if m + 1 < j {
            lemma_cycle_never_ends(data, pos, n, i, j, (fuel - 1) as nat, m + 1);
        } else {
            lemma_cycle_never_ends(data, pos, n, i, j, (fuel - 1) as nat, i);
        }
    }
}

proof fn lemma_prefix_never_ends(data: Seq<u8>, pos: int, n: nat, i: nat, j: nat, fuel: nat, m: nat)
    requires
        i < j <= n,
        chain_pos(data, pos, i) == chain_pos(data, pos, j),
        forall|k: nat| k <= n ==> next_pointer(data, #[trigger] chain_pos(data, pos, k)) is Some,
        m <= i,
    ensures
        !(qname_from(data, chain_pos(data, pos, m), fuel) is Some),
    decreases i - m,
{
    if m == i {
        lemma_cycle_never_ends(data, pos, n, i, j, fuel, i);
    } else {
        let q = chain_pos(data, pos, m);
        lemma_qname_step(data, q, fuel);
        assert(next_pointer(data, chain_pos(data, pos, m)) is Some);
        assert(next_pointer(data, q) == Some(chain_pos(data, pos, m + 1)));
        if fuel > 0 {
            lemma_prefix_never_ends(data, pos, n, i, j, (fuel - 1) as nat, m + 1);
        }
    }
}

proof fn lemma_pigeonhole(s: Seq<int>, n: nat)
    requires
        s.len() == n + 1,
        forall|k: int| 0 <= k < s.len() ==> 0 <= #[trigger] s[k] < n,
    ensures
        exists|i: int, j: int| 0 <= i < j < s.len() && s[i] == s[j],
{
    if !s.no_duplicates() {
        let (i, j) = choose|i: int, j: int| 0 <= i < s.len() && 0 <= j < s.len() && i != j && s[i] == s[j];
        if i < j {
            assert(s[i] == s[j]);
        } else {
            assert(s[j] == s[i]);
        }
    } else {
        s.unique_seq_to_set();
        vstd::set_lib::lemma_int_range(0, n as int);
        assert(s.to_set().subset_of(vstd::set_lib::set_int_range(0, n as int)));
        vstd::set_lib::lemma_len_subset(s.to_set(), vstd::set_lib::set_int_range(0, n as int));
    }
}

/// When reading a name needs more compression pointers than the packet has
/// bytes, the pointers go round in a circle and reading never ends.
proof fn lemma_bounded_fuel_decides(data: Seq<u8>, pos: int)
    ensures
        qname_terminates(data, pos) == (qname_from(data, pos, data.len()) is Some),
{
    let n = data.len();
    if !(qname_from(data, pos, n) is Some) {
        assert forall|k: nat| k <= n implies next_pointer(data, #[trigger] chain_pos(data, pos, k)) is Some by {
            lemma_chain_stuck(data, pos, n, k);
        }
        let s = Seq::new((n + 1) as nat, |k: int| chain_pos(data, pos, k as nat));
        assert forall|k: int| 0 <= k < s.len() implies 0 <= #[trigger] s[k] < n by {
            lemma_qname_step(data, chain_pos(data, pos, k as nat), 0);
            assert(next_pointer(data, chain_pos(data, pos, k as nat)) is Some);
        }
        lemma_pigeonhole(s, n);
        let (i, j) = choose|i: int, j: int| 0 <= i < j < s.len() && s[i] == s[j];
        assert forall|fuel: nat| !(qname_from(data, pos, fuel) is Some) by {
            lemma_prefix_never_ends(data, pos, n, i as nat, j as nat, fuel, 0);
        }
    }
}

/// Whether reading a name from `offset` ends, that is whether
/// `parse_qname` may be called there: the compression pointers met do not
/// lead round in a circle.
pub fn qname_ends(data: &[u8], offset: usize) -> (b: bool)
    ensures
        b == qname_terminates(data@, offset as int),
{
    proof {
        lemma_bounded_fuel_decides(data@, offset as int);
    }
    labels_end_within(data, offset, data.len())
}

/// Reads the query name starting at `offset`: the dotted name (with a final
/// dot) and the offset just after it, or `None` for malformed bytes.
pub fn parse_qname(data: &[u8], offset: usize) -> (r: Option<(String, usize)>)
    requires
        qname_terminates(data@, offset as int),
    ensures
        opt_name_view(r) == qname_at(data@, offset as int),
{
    let ghost fuel = choose|fuel: nat| qname_from(data@, offset as int, fuel) is Some;
    match read_labels(data, offset, Ghost(fuel)) {
        None => None,
        Some((labels, end)) => {
            let d = dotted_exec(&labels);
            Some((string_of(d.as_slice()), end))
        },
    }
}


/// Labels in wire form: each as its length in bytes (kept to its low eight
/// bits) followed by its UTF-8 bytes.
pub open spec fn packed_labels(parts: Seq<Seq<char>>) -> Seq<u8>
    decreases parts.len(),
{
    if parts.len() == 0 {
        Seq::empty()
    } else {
        packed_labels(parts.drop_last()) + seq![encode_utf8(parts.last()).len() as u8]
            + encode_utf8(parts.last())
    }
}

/// A dotted name in wire form: trailing dots dropped, the rest split at
/// dots, each part packed, then a zero byte.
pub open spec fn packed_name(name: Seq<char>) -> Seq<u8> {
    packed_labels(split_char(trim_end_when(name, char_is('.')), '.')).push(0u8)
}

/// A label as it is packed: its UTF-8 length, then its UTF-8 bytes.
pub open spec fn packed_label(l: Seq<char>) -> Seq<u8> {
    seq![encode_utf8(l).len() as u8] + encode_utf8(l)
}

/// A label that packs and reads back unchanged: not empty, at most 63 bytes
/// of UTF-8, without a dot.
pub open spec fn plain_label(l: Seq<char>) -> bool {
    &&& 0 < encode_utf8(l).len() <= 63
    &&& forall|i: int| 0 <= i < l.len() ==> #[trigger] l[i] != '.'
}

proof fn lemma_packed_front(ls: Seq<Seq<char>>)
    requires
        ls.len() > 0,
    ensures
        packed_labels(ls) == packed_label(ls[0]) + packed_labels(ls.drop_first()),
    decreases ls.len(),
{
    if ls.len() == 1 {
        assert(ls.drop_last() =~= Seq::<Seq<char>>::empty());
        assert(ls.drop_first() =~= Seq::<Seq<char>>::empty());
        assert(packed_labels(ls) =~= packed_label(ls[0]));
        assert(packed_label(ls[0]) + packed_labels(ls.drop_first()) =~= packed_label(ls[0]));
    } else {
        lemma_packed_front(ls.drop_last());
        assert(ls.drop_last().drop_first() =~= ls.drop_first().drop_last());
        assert(ls.drop_last()[0] == ls[0]);
        assert(ls.drop_first().last() == ls.last());
        assert(packed_labels(ls) =~= packed_label(ls[0]) + packed_labels(ls.drop_first()));
    }
}

proof fn lemma_read_packed(data: Seq<u8>, pos: int, ls: Seq<Seq<char>>, fuel: nat)
    requires
        0 <= pos,
        forall|i: int| 0 <= i < ls.len() ==> plain_label(#[trigger] ls[i]),
        pos + packed_labels(ls).len() < data.len(),
        data.subrange(pos, pos + packed_labels(ls).len()) == packed_labels(ls),
        data[pos + packed_labels(ls).len()] == 0,
    ensures
        qname_from(data, pos, fuel) == Some(Some((ls, pos + packed_labels(ls).len() + 1))),
    decreases ls.len(),
{
    let pl = packed_labels(ls);
    if ls.len() == 0 {
        assert(pl.len() == 0);
        assert(ls =~= Seq::<Seq<char>>::empty());
    } else {
        lemma_packed_front(ls);
        let l = ls[0];
        let e = encode_utf8(l);
        let len = e.len() as int;
        let rest = ls.drop_first();
        let pr = packed_labels(rest);
        assert(plain_label(l));
        assert(pl == seq![len as u8] + e + pr);
        assert(data[pos] == pl[0]);
        assert(data[pos] as int == len);
        assert(data.subrange(pos + 1, pos + 1 + len) =~= e) by {
            assert forall|k: int| 0 <= k < len implies data[pos + 1 + k] == e[k] by {
                assert(data[pos + 1 + k] == pl[1 + k]);
            }
        }
        assert(data.subrange(pos + 1 + len, pos + 1 + len + pr.len()) =~= pr) by {
            assert forall|k: int| 0 <= k < pr.len() implies data[pos + 1 + len + k] == pr[k] by {
                assert(data[pos + 1 + len + k] == pl[1 + len + k]);
            }
        }
        assert forall|i: int| 0 <= i < rest.len() implies plain_label(#[trigger] rest[i]) by {
            assert(rest[i] == ls[i + 1]);
        }
        lemma_read_packed(data, pos + 1 + len, rest, fuel);
        encode_utf8_valid_utf8(l);
        encode_utf8_decode_utf8(l);
        assert(lossy_text(e) == l);
        assert(seq![l] + rest =~= ls);
    }
}

proof fn lemma_join_split(ls: Seq<Seq<char>>)
    requires
        ls.len() > 0,
        forall|i: int| 0 <= i < ls.len() ==> plain_label(#[trigger] ls[i]),
    ensures
        split_char(join(ls, seq!['.']), '.') == ls,
        join(ls, seq!['.']).len() > 0,
        join(ls, seq!['.']).last() != '.',
    decreases ls.len(),
{
    let l = ls.last();
    assert(plain_label(ls[ls.len() - 1]));
    assert(l.len() > 0) by {
        if l.len() == 0 {
            assert(encode_utf8(l) =~= Seq::<u8>::empty());
        }
    }
    assert(l.last() == l[l.len() - 1]);
    let empty = Seq::<char>::empty();
    if ls.len() == 1 {
        assert(join(ls, seq!['.']) == l);
        lemma_split_append(empty, l, char_is('.'));
        assert(empty + l =~= l);
        assert(split_char(empty, '.') == seq![empty]);
        assert(seq![empty].update(0, empty + l) =~= ls);
    } else {
        let p = ls.drop_last();
        assert forall|i: int| 0 <= i < p.len() implies plain_label(#[trigger] p[i]) by {
            assert(p[i] == ls[i]);
        }
        lemma_join_split(p);
        let a = join(p, seq!['.']);
        let a_dot = a + seq!['.'];
        assert(a_dot.drop_last() =~= a);
        lemma_split_nonempty(a, char_is('.'));
        assert(split_char(a_dot, '.') == split_char(a, '.').push(empty));
        lemma_split_append(a_dot, l, char_is('.'));
        assert(join(ls, seq!['.']) =~= a_dot + l);
        assert(split_char(a_dot, '.').update(split_char(a_dot, '.').len() - 1, split_char(a_dot, '.').last() + l)
            =~= ls);
        assert((a_dot + l).last() == l.last());
    }
}

proof fn lemma_encode_concat(a: Seq<char>, b: Seq<char>)
    ensures
        encode_utf8(a + b) == encode_utf8(a) + encode_utf8(b),
    decreases a.len(),
{
    if a.len() == 0 {
        assert(a + b =~= b);
        assert(encode_utf8(a) + encode_utf8(b) =~= encode_utf8(b));
    } else {
        assert((a + b)[0] == a[0]);
        assert((a + b).drop_first() =~= a.drop_first() + b);
        lemma_encode_concat(a.drop_first(), b);
        assert(encode_utf8(a + b) =~= encode_utf8(a) + encode_utf8(b));
    }
}

proof fn lemma_packed_len(ls: Seq<Seq<char>>)
    requires
        ls.len() > 0,
    ensures
        packed_labels(ls).len() == encode_utf8(join(ls, seq!['.'])).len() + 1,
    decreases ls.len(),
{
    if ls.len() == 1 {
        assert(ls.drop_last() =~= Seq::<Seq<char>>::empty());
        assert(ls.last() == ls[0]);
        assert(join(ls, seq!['.']) == ls[0]);
        assert(packed_labels(ls).len() == packed_labels(ls.drop_last()).len() + 1 + encode_utf8(ls.last()).len());
    } else {
        let p = ls.drop_last();
        lemma_packed_len(p);
        let a = join(p, seq!['.']);
        lemma_encode_concat(a + seq!['.'], ls.last());
        lemma_encode_concat(a, seq!['.']);
        let dot = seq!['.'];
        assert(dot.drop_first() =~= Seq::<char>::empty());
        assert(dot[0] == '.');
        assert(('.' as u32) == 46u32);
        assert(has_width_1_encoding(dot[0] as u32));
        assert(encode_scalar(dot[0] as u32).len() == 1);
        assert(encode_utf8(dot) == encode_scalar(dot[0] as u32) + encode_utf8(dot.drop_first()));
        assert(encode_utf8(dot).len() == 1);
        let l = ls.last();
        assert(ls.last() == l);
        assert(packed_labels(ls).len() == packed_labels(p).len() + 1 + encode_utf8(l).len());
        assert(join(ls, seq!['.']) == a + dot + l);
        assert(encode_utf8(a + dot + l).len() == encode_utf8(a).len() + 1 + encode_utf8(l).len());
    }
}

/// A packed name can be read back (reading it ends, so `parse_qname` may be
/// called on it); reading it gives the name, with its final dot, and ends
/// just after the packed bytes, which are two more than the name's UTF-8
/// bytes: for a name made of labels that are not empty, have no dot and
/// take at most 63 bytes each.
pub proof fn law_packed_name_reads_back(labels: Seq<Seq<char>>)
    requires
        labels.len() > 0,
        forall|i: int| 0 <= i < labels.len() ==> plain_label(#[trigger] labels[i]),
    ensures
        ({
            let n = join(labels, seq!['.']);
            &&& qname_terminates(packed_name(n), 0)
            &&& qname_at(packed_name(n), 0) == Some((n.push('.'), packed_name(n).len() as int))
            &&& packed_name(n).len() == encode_utf8(n).len() + 2
        }),
{
    let n = join(labels, seq!['.']);
    lemma_join_split(labels);
    assert(trim_end_when(n, char_is('.')) == n);
    let p = packed_name(n);
    let pl = packed_labels(labels);
    assert(p == pl.push(0u8));
    assert(p.subrange(0, pl.len() as int) =~= pl);
    assert forall|fuel: nat| qname_from(p, 0, fuel) == Some(Some((labels, (pl.len() + 1) as int))) by {
        lemma_read_packed(p, 0, labels, fuel);
    }
    assert(qname_from(p, 0, 0) is Some);
    lemma_packed_len(labels);
}

/// Packs a dotted name into DNS wire form.
pub fn pack_name(name: &str) -> (r: Vec<u8>)
    ensures
        r@ == packed_name(name@),
{
    let chars = chars_of(name);
    let trimmed = trim_end_char(chars.as_slice(), '.');
    let parts = split_on(trimmed.as_slice(), '.');
    let ghost pv = views(parts@);
    let mut result: Vec<u8> = Vec::new();
    for i in 0..parts.len()
        invariant
            pv == views(parts@),
            result@ == packed_labels(pv.take(i as int)),
    {
        let part = string_of(parts[i].as_slice());
        let bytes = part.as_str().as_bytes();
        assert(bytes@ == encode_utf8(parts@[i as int]@));
        result.push(bytes.len() as u8);
        push_bytes(&mut result, bytes);
        assert(pv.take(i + 1).drop_last() == pv.take(i as int));
    }
    assert(pv.take(parts.len() as int) == pv);
    result.push(0);
    result
}

/// The bytes of an address written `a.b.c.d`: each dot-separated part that
/// reads as a number up to 255 gives one byte; other parts are skipped.
pub open spec fn octets_of(parts: Seq<Seq<char>>) -> Seq<u8>
    decreases parts.len(),
{
    if parts.len() == 0 {
        Seq::empty()
    } else {
        octets_of(parts.drop_last()) + match parse_unsigned(parts.last(), 255) {
            Some(v) => seq![v as u8],
            None => Seq::empty(),
        }
    }
}

pub open spec fn ip_octets(ip: Seq<char>) -> Seq<u8> {
    octets_of(split_char(ip, '.'))
}

fn address_octets(ip: &str) -> (r: Vec<u8>)
    ensures
        r@ == ip_octets(ip@),
{
    let chars = chars_of(ip);
    let parts = split_on(chars.as_slice(), '.');
    let ghost pv = views(parts@);
    let mut out: Vec<u8> = Vec::new();
    for i in 0..parts.len()
        invariant
            pv == views(parts@),
            out@ == octets_of(pv.take(i as int)),
    {
        assert(pv.take(i + 1).drop_last() == pv.take(i as int));
        assert(pv[i as int] == parts@[i as int]@);
        match parse_decimal(parts[i].as_slice(), 255) {
            Some(v) => {
                out.push(v as u8);
            },
            None => {},
        }
        assert(out@ =~= octets_of(pv.take(i + 1)));
    }
    assert(pv.take(parts.len() as int) == pv);
    out
}

/// The project table as a map: for a name listed more than once the last
/// entry counts.
pub open spec fn pairs_map(s: Seq<(String, String)>) -> Map<Seq<char>, Seq<char>>
    decreases s.len(),
{
    if s.len() == 0 {
        Map::empty()
    } else {
        pairs_map(s.drop_last()).insert(s.last().0@, s.last().1@)
    }
}

proof fn lemma_pairs_map_update_last(s: Seq<(String, String)>, i: int, e: (String, String))
    requires
        0 <= i < s.len(),
        s[i].0@ == e.0@,
        forall|j: int| i < j < s.len() ==> s[j].0@ != e.0@,
    ensures
        pairs_map(s.update(i, e)) == pairs_map(s).insert(e.0@, e.1@),
    decreases s.len(),
{
    if i == s.len() - 1 {
        assert(s.update(i, e).drop_last() == s.drop_last());
        assert(pairs_map(s.update(i, e)) =~= pairs_map(s).insert(e.0@, e.1@));
    } else {
        assert(s.update(i, e).drop_last() == s.drop_last().update(i, e));
        lemma_pairs_map_update_last(s.drop_last(), i, e);
        assert(pairs_map(s.update(i, e)) =~= pairs_map(s).insert(e.0@, e.1@));
    }
}

proof fn lemma_pairs_map_lookup(s: Seq<(String, String)>, k: Seq<char>)
    ensures
        (forall|j: int| 0 <= j < s.len() ==> s[j].0@ != k) ==> !pairs_map(s).contains_key(k),
        forall|i: int|
            0 <= i < s.len() && s[i].0@ == k && (forall|j: int| i < j < s.len() ==> s[j].0@ != k)
                ==> pairs_map(s).contains_key(k) && pairs_map(s)[k] == s[i].1@,
    decreases s.len(),
{
    if s.len() > 0 {
        lemma_pairs_map_lookup(s.drop_last(), k);
        assert forall|i: int|
            0 <= i < s.len() && s[i].0@ == k && (forall|j: int| i < j < s.len() ==> s[j].0@ != k)
            implies pairs_map(s).contains_key(k) && pairs_map(s)[k] == s[i].1@ by {
            if i < s.len() - 1 {
                assert(s.drop_last()[i] == s[i]);
                assert(forall|j: int| i < j < s.drop_last().len() ==> s.drop_last()[j] == s[j]);
            }
        }
        if forall|j: int| 0 <= j < s.len() ==> s[j].0@ != k {
            assert(forall|j: int| 0 <= j < s.drop_last().len() ==> s.drop_last()[j] == s[j]);
        }
    }
}

/// Lightweight DNS proxy for `*.test` domains: the project table it answers
/// from, the port it listens on and whether it runs.
pub struct DnsProxy {
    listen_port: u16,
    projects: Vec<(String, String)>,
    running: bool,
}

impl DnsProxy {
    /// Project name to address.
    pub closed spec fn project_map(&self) -> Map<Seq<char>, Seq<char>> {
        pairs_map(self.projects@)
    }

    pub closed spec fn port(&self) -> u16 {
        self.listen_port
    }

    pub closed spec fn runs(&self) -> bool {
        self.running
    }

    /// A stopped proxy for `listen_port` with no projects.
    pub fn new(listen_port: u16) -> (p: Self)
        ensures
            p.project_map() == Map::<Seq<char>, Seq<char>>::empty(),
            p.port() == listen_port,
            !p.runs(),
    {
        DnsProxy { listen_port, projects: Vec::new(), running: false }
    }

    /// Registers `ip` for the project `name`, under its lowercase form.
    pub fn add_project(&mut self, name: &str, ip: &str)
        ensures
            final(self).project_map() == old(self).project_map().insert(
                unicode_lowercase(name@),
                ip@,
            ),
            final(self).port() == old(self).port(),
            final(self).runs() == old(self).runs(),
    {
        let key = to_lowercase(name);
        let value = string_of(chars_of(ip).as_slice());
        let mut i = self.projects.len();
        while i > 0
            invariant
                i <= self.projects.len(),
                self.projects@ == old(self).projects@,
                self.listen_port == old(self).listen_port,
                self.running == old(self).running,
                key@ == unicode_lowercase(name@),
                value@ == ip@,
                forall|j: int| i <= j < self.projects@.len() ==> self.projects@[j].0@ != key@,
            decreases i,
        {
            if same_text(self.projects[i - 1].0.as_str(), key.as_str()) {
                let ghost s = self.projects@;
                let ghost k = key@;
                let ghost v = value@;
                let e = (key, value);
                proof {
                    assert(s[i - 1].0@ == e.0@);
                    lemma_pairs_map_update_last(s, i - 1, e);
                }
                self.projects.set(i - 1, e);
                assert(self.projects@ == s.update(i - 1, e));
                assert(k == unicode_lowercase(name@));
                assert(v == ip@);
                return;
            }
            i = i - 1;
        }
        let ghost s = self.projects@;
        self.projects.push((key, value));
        assert(self.projects@.drop_last() == s);
    }

    /// Replaces the whole project table; for a name listed more than once the
    /// last entry counts.
    pub fn set_projects(&mut self, projects: Vec<(String, String)>)
        ensures
            final(self).project_map() == pairs_map(projects@),
            final(self).port() == old(self).port(),
            final(self).runs() == old(self).runs(),
    {
        self.projects = projects;
    }

    /// The address registered for `name`, if any.
    pub fn lookup(&self, name: &str) -> (r: Option<String>)
        ensures
            match r {
                Some(ip) => self.project_map().contains_key(name@) && ip@ == self.project_map()[name@],
                None => !self.project_map().contains_key(name@),
            },
    {
        let mut i = self.projects.len();
        while i > 0
            invariant
                i <= self.projects.len(),
                forall|j: int| i <= j < self.projects@.len() ==> self.projects@[j].0@ != name@,
            decreases i,
        {
            if same_text(self.projects[i - 1].0.as_str(), name) {
                let ip = self.projects[i - 1].1.clone();
                proof {
                    let s = self.projects@;
                    lemma_pairs_map_lookup(s, name@);
                    let ii = i - 1;
                    assert(0 <= ii < s.len() && s[ii].0@ == name@ && (forall|j: int|
                        ii < j < s.len() ==> s[j].0@ != name@));
                }
                return Some(ip);
            }
            i = i - 1;
        }
        proof {
            lemma_pairs_map_lookup(self.projects@, name@);
        }
        None
    }

    /// Marks the proxy as running (its socket is bound and served).
    pub fn mark_started(&mut self)
        ensures
            final(self).runs(),
            final(self).project_map() == old(self).project_map(),
            final(self).port() == old(self).port(),
    {
        self.running = true;
    }

    /// Asks the serving loop to end.
    pub fn stop(&mut self)
        ensures
            !final(self).runs(),
            final(self).project_map() == old(self).project_map(),
            final(self).port() == old(self).port(),
    {
        self.running = false;
    }

    pub fn is_running(&self) -> (r: bool)
        ensures
            r == self.runs(),
    {
        self.running
    }

    pub fn listen_port(&self) -> (r: u16)
        ensures
            r == self.port(),
    {
        self.listen_port
    }
}

/// The address answered for `project`: the registered one, else 127.0.0.1.
pub open spec fn answer_ip(projects: Map<Seq<char>, Seq<char>>, project: Seq<char>) -> Seq<char> {
    if projects.contains_key(project) {
        projects[project]
    } else {
        "127.0.0.1"@
    }
}

/// The answer to the query `data`: `None` for a packet shorter than a header,
/// a malformed name, a question without type and class, or a name that is
/// not `<project>.test`. The answer repeats the id and question count, sets
/// the response flags 0x8180 and one answer, repeats the question section
/// (the name as it was sent, its type and class), then gives the answer
/// record: the name, type and class asked, a TTL of 300 and the address.
pub open spec fn query_answer(data: Seq<u8>, projects: Map<Seq<char>, Seq<char>>) -> Option<
    Seq<u8>,
> {
    if data.len() < 12 {
        None
    } else {
        match qname_at(data, 12) {
            None => None,
            Some((qname, offset)) => {
                if offset + 4 > data.len() {
                    None
                } else {
                    let parts = split_char(trim_end_when(qname, char_is('.')), '.');
                    if parts.len() < 2 || parts.last() != "test"@ {
                        None
                    } else {
                        let ip = answer_ip(projects, unicode_lowercase(parts[parts.len() - 2]));
                        Some(
                            seq![data[0], data[1], 0x81u8, 0x80u8, data[4], data[5], 0u8, 1u8, 0u8, 0u8, 0u8, 0u8]
                                + data.subrange(12, offset + 4) + packed_name(qname) + seq![
                                data[offset],
                                data[offset + 1],
                                data[offset + 2],
                                data[offset + 3],
                                0u8,
                                0u8,
                                1u8,
                                44u8,
                                0u8,
                                4u8,
                            ] + ip_octets(ip),
                        )
                    }
                }
            },
        }
    }
}

pub open spec fn opt_bytes_view(r: Option<Vec<u8>>) -> Option<Seq<u8>> {
    match r {
        Some(v) => Some(v@),
        None => None,
    }
}

proof fn lemma_qname_end_after(data: Seq<u8>, pos: int, fuel: nat)
    requires
        pos >= 0,
    ensures
        qname_from(data, pos, fuel) matches Some(Some((_, end))) ==> end > pos,
    decreases fuel, data.len() - pos,
{
    if 0 <= pos < data.len() && data[pos] != 0 && data[pos] < 192 {
        let len = data[pos] as int;
        if pos + 1 + len <= data.len() {
            lemma_qname_end_after(data, pos + 1 + len, fuel);
        }
    }
}

/// Answers one query from the project table of `proxy`.
pub fn handle_query(data: &[u8], proxy: &DnsProxy) -> (r: Option<Vec<u8>>)
    requires
        data@.len() >= 12 ==> qname_terminates(data@, 12),
    ensures
        opt_bytes_view(r) == query_answer(data@, proxy.project_map()),
{
    if data.len() < 12 {
        return None;
    }
    let (qname, offset) = match parse_qname(data, 12) {
        Some(q) => q,
        None => return None,
    };
    if offset > data.len() || data.len() - offset < 4 {
        return None;
    }
    proof {
        let fuel = choose|fuel: nat| qname_from(data@, 12, fuel) is Some;
        lemma_qname_end_after(data@, 12, fuel);
    }
    let qchars = chars_of(qname.as_str());
    let trimmed = trim_end_char(qchars.as_slice(), '.');
    let parts = split_on(trimmed.as_slice(), '.');
    let test = chars_of("test");
    assert(views(parts@).len() == parts@.len());
    if parts.len() < 2 || !same_chars(parts[parts.len() - 1].as_slice(), test.as_slice()) {
        return None;
    }
    let project_text = string_of(parts[parts.len() - 2].as_slice());
    let project = to_lowercase(project_text.as_str());
    let ip = match proxy.lookup(project.as_str()) {
        Some(ip) => ip,
        None => string_of(chars_of("127.0.0.1").as_slice()),
    };
    let packed = pack_name(qname.as_str());
    let octets = address_octets(ip.as_str());
    let response = assemble_answer(data, offset, packed.as_slice(), octets.as_slice());
    proof {
        let parts_v = split_char(trim_end_when(qname@, char_is('.')), '.');
        assert(views(parts@) == parts_v);
        assert(parts@[parts@.len() - 2]@ == parts_v[parts_v.len() - 2]);
    }
    Some(response)
}

/// Answers one received packet: a packet whose question name runs into a
/// loop of compression pointers is dropped, any other is answered as
/// `handle_query` does.
pub fn answer_packet(data: &[u8], proxy: &DnsProxy) -> (r: Option<Vec<u8>>)
    ensures
        data@.len() >= 12 && !qname_terminates(data@, 12) ==> r is None,
        data@.len() < 12 || qname_terminates(data@, 12) ==> opt_bytes_view(r) == query_answer(
            data@,
            proxy.project_map(),
        ),
{
    if data.len() >= 12 && !qname_ends(data, 12) {
        return None;
    }
    handle_query(data, proxy)
}

fn assemble_answer(data: &[u8], offset: usize, packed: &[u8], octets: &[u8]) -> (response: Vec<u8>)
    requires
        12 <= offset,
        offset + 4 <= data@.len(),
    ensures
        response@ == seq![data[0], data[1], 0x81u8, 0x80u8, data[4], data[5], 0u8, 1u8, 0u8, 0u8, 0u8, 0u8]
            + data@.subrange(12, offset + 4) + packed@ + seq![
            data[offset as int],
            data[offset + 1],
            data[offset + 2],
            data[offset + 3],
            0u8,
            0u8,
            1u8,
            44u8,
            0u8,
            4u8,
        ] + octets@,
{
    let mut response: Vec<u8> = Vec::new();
    response.push(data[0]);
    response.push(data[1]);
    response.push(0x81);
    response.push(0x80);
    response.push(data[4]);
    response.push(data[5]);
    response.push(0);
    response.push(1);
    response.push(0);
    response.push(0);
    response.push(0);
    response.push(0);
    push_bytes(&mut response, &data[12..offset + 4]);
    push_bytes(&mut response, packed);
    response.push(data[offset]);
    response.push(data[offset + 1]);
    response.push(data[offset + 2]);
    response.push(data[offset + 3]);
    response.push(0);
    response.push(0);
    response.push(1);
    response.push(44);
    response.push(0);
    response.push(4);
    push_bytes(&mut response, octets);
    response
}


/// The last four bytes of `r` are `tail`.
pub open spec fn ends_in(r: Seq<u8>, tail: Seq<u8>) -> bool {
    r.len() >= tail.len() && r.subrange(r.len() - tail.len(), r.len() as int) == tail
}

proof fn lemma_loopback_octets()
    ensures
        ip_octets("127.0.0.1"@) == seq![127u8, 0u8, 0u8, 1u8],
{
    reveal_strlit("127.0.0.1");
    let ip = "127.0.0.1"@;
    assert(ip =~= seq!['1', '2', '7', '.', '0', '.', '0', '.', '1']);
    let e = Seq::<char>::empty();
    let p0 = e;
    let p1 = p0.push('1');
    let p2 = p1.push('2');
    let p3 = p2.push('7');
    let p4 = p3.push('.');
    let p5 = p4.push('0');
    let p6 = p5.push('.');
    let p7 = p6.push('0');
    let p8 = p7.push('.');
    let p9 = p8.push('1');
    assert(ip =~= p9);
    let a = seq!['1', '2', '7'];
    let z = seq!['0'];
    let o = seq!['1'];
    assert(split_char(p0, '.') =~= seq![e]);
    assert(p1.drop_last() =~= p0);
    assert(split_char(p1, '.') =~= seq![seq!['1']]);
    assert(p2.drop_last() =~= p1);
    assert(seq!['1'].push('2') =~= seq!['1', '2']);
    assert(split_char(p2, '.') =~= seq![seq!['1', '2']]);
    assert(p3.drop_last() =~= p2);
    assert(seq!['1', '2'].push('7') =~= a);
    assert(split_char(p3, '.') =~= seq![a]);
    assert(p4.drop_last() =~= p3);
    assert(split_char(p4, '.') =~= seq![a, e]);
    assert(p5.drop_last() =~= p4);
    assert(e.push('0') =~= z);
    assert(split_char(p5, '.') =~= seq![a, z]);
    assert(p6.drop_last() =~= p5);
    assert(split_char(p6, '.') =~= seq![a, z, e]);
    assert(p7.drop_last() =~= p6);
    assert(split_char(p7, '.') =~= seq![a, z, z]);
    assert(p8.drop_last() =~= p7);
    assert(split_char(p8, '.') =~= seq![a, z, z, e]);
    assert(p9.drop_last() =~= p8);
    assert(e.push('1') =~= o);
    let parts = split_char(p9, '.');
    assert(parts =~= seq![a, z, z, o]);
    reveal_with_fuel(crate::text::digits_value, 4);
    assert(parse_unsigned(a, 255) == Some(127nat)) by {
        assert(a.drop_last() =~= seq!['1', '2']);
        assert(seq!['1', '2'].drop_last() =~= seq!['1']);
        assert(seq!['1'].drop_last() =~= e);
    }
    assert(parse_unsigned(z, 255) == Some(0nat)) by {
        assert(z.drop_last() =~= e);
    }
    assert(parse_unsigned(o, 255) == Some(1nat)) by {
        assert(o.drop_last() =~= e);
    }
    reveal_with_fuel(octets_of, 5);
    assert(parts.drop_last() =~= seq![a, z, z]);
    assert(parts.drop_last().drop_last() =~= seq![a, z]);
    assert(parts.drop_last().drop_last().drop_last() =~= seq![a]);
    assert(parts.drop_last().drop_last().drop_last().drop_last() =~= Seq::<Seq<char>>::empty());
    assert(octets_of(parts) =~= seq![127u8, 0u8, 0u8, 1u8]);
}

proof fn lemma_answer_tail(data: Seq<u8>, projects: Map<Seq<char>, Seq<char>>)
    ensures
        query_answer(data, projects) matches Some(r) ==> {
            let (qname, _) = qname_at(data, 12).unwrap();
            let parts = split_char(trim_end_when(qname, char_is('.')), '.');
            ends_in(r, ip_octets(answer_ip(projects, unicode_lowercase(parts[parts.len() - 2]))))
        },
{
    if let Some(r) = query_answer(data, projects) {
        let (qname, offset) = qname_at(data, 12).unwrap();
        let parts = split_char(trim_end_when(qname, char_is('.')), '.');
        let ip = answer_ip(projects, unicode_lowercase(parts[parts.len() - 2]));
        let head = seq![data[0], data[1], 0x81u8, 0x80u8, data[4], data[5], 0u8, 1u8, 0u8, 0u8, 0u8, 0u8]
            + data.subrange(12, offset + 4) + packed_name(qname) + seq![
            data[offset],
            data[offset + 1],
            data[offset + 2],
            data[offset + 3],
            0u8,
            0u8,
            1u8,
            44u8,
            0u8,
            4u8,
        ];
        assert(r == head + ip_octets(ip));
        assert(r.subrange(r.len() - ip_octets(ip).len(), r.len() as int) =~= ip_octets(ip));
    }
}

/// A `.test` name whose project is not registered resolves to 127.0.0.1:
/// the answer ends with the address bytes 127, 0, 0, 1.
pub proof fn law_unregistered_project_resolves_to_loopback(
    data: Seq<u8>,
    projects: Map<Seq<char>, Seq<char>>,
)
    ensures
        query_answer(data, projects) matches Some(r) ==> {
            let (qname, _) = qname_at(data, 12).unwrap();
            let parts = split_char(trim_end_when(qname, char_is('.')), '.');
            !projects.contains_key(unicode_lowercase(parts[parts.len() - 2])) ==> ends_in(
                r,
                seq![127u8, 0u8, 0u8, 1u8],
            )
        },
{
    lemma_loopback_octets();
    lemma_answer_tail(data, projects);
}

/// A fresh proxy, with no project registered, answers every `.test` name
/// with 127.0.0.1.
pub proof fn law_fresh_proxy_resolves_to_loopback(data: Seq<u8>)
    ensures
        query_answer(data, Map::empty()) matches Some(r) ==> ends_in(r, seq![127u8, 0u8, 0u8, 1u8]),
{
    lemma_loopback_octets();
    lemma_answer_tail(data, Map::empty());
}

/// Once `add_project(name, ip)` has registered a project, a `.test` query
/// whose project label has the same lowercase form is answered with `ip`.
pub proof fn law_registered_project_resolves_to_its_address(
    data: Seq<u8>,
    projects: Map<Seq<char>, Seq<char>>,
    name: Seq<char>,
    ip: Seq<char>,
)
    ensures
        query_answer(data, projects.insert(unicode_lowercase(name), ip)) matches Some(r) ==> {
            let (qname, _) = qname_at(data, 12).unwrap();
            let parts = split_char(trim_end_when(qname, char_is('.')), '.');
            unicode_lowercase(parts[parts.len() - 2]) == unicode_lowercase(name) ==> ends_in(
                r,
                ip_octets(ip),
            )
        },
{
    lemma_answer_tail(data, projects.insert(unicode_lowercase(name), ip));
}

/// Every answer repeats the query's id and question count, carries the
/// response flags 0x8180 and exactly one answer record.
pub proof fn law_answer_header(data: Seq<u8>, projects: Map<Seq<char>, Seq<char>>)
    ensures
        query_answer(data, projects) matches Some(r) ==> r.subrange(0, 12) == seq![
            data[0],
            data[1],
            0x81u8,
            0x80u8,
            data[4],
            data[5],
            0u8,
            1u8,
            0u8,
            0u8,
            0u8,
            0u8,
        ],
{
    if let Some(r) = query_answer(data, projects) {
        assert(r.subrange(0, 12) =~= seq![
            data[0],
            data[1],
            0x81u8,
            0x80u8,
            data[4],
            data[5],
            0u8,
            1u8,
            0u8,
            0u8,
            0u8,
            0u8,
        ]);
    }
}

/// Only names under `.test` are answered.
pub proof fn law_only_test_names_answered(data: Seq<u8>, projects: Map<Seq<char>, Seq<char>>)
    ensures
        query_answer(data, projects) is Some ==> {
            let (qname, _) = qname_at(data, 12).unwrap();
            let parts = split_char(trim_end_when(qname, char_is('.')), '.');
            parts.len() >= 2 && parts.last() == "test"@
        },
{
}

} // verus!
