//! Decisions of the standalone DNS responder: `.test` names are answered
//! with 127.0.0.1, other queries are forwarded upstream.

use vstd::prelude::*;

use crate::text::{chars_of, ends_with, from_utf8_lossy, has_suffix, lossy_text, push_bytes, push_char};

verus! {

/// The fixed part of a DNS message.
pub struct DnsHeader {
    pub id: u16,
    pub flags: u16,
    pub qdcount: u16,
    pub ancount: u16,
    pub nscount: u16,
    pub arcount: u16,
}

/// The big-endian number in `buf[i]`, `buf[i + 1]`.
pub open spec fn be16_at(buf: Seq<u8>, i: int) -> u16 {
    (buf[i] as int * 256 + buf[i + 1] as int) as u16
}

/// The header read from the first twelve bytes of `buf`.
pub open spec fn header_of(buf: Seq<u8>) -> DnsHeader {
    DnsHeader {
        id: be16_at(buf, 0),
        flags: be16_at(buf, 2),
        qdcount: be16_at(buf, 4),
        ancount: be16_at(buf, 6),
        nscount: be16_at(buf, 8),
        arcount: be16_at(buf, 10),
    }
}

/// Big-endian bytes of `x`.
pub open spec fn be16(x: u16) -> Seq<u8> {
    seq![(x / 256) as u8, (x % 256) as u8]
}

fn read_be16(buf: &[u8], i: usize) -> (r: u16)
    requires
        i + 1 < buf@.len(),
    ensures
        r == be16_at(buf@, i as int),
{
    (buf[i] as u16) * 256 + (buf[i + 1] as u16)
}

fn push_be16(out: &mut Vec<u8>, x: u16)
    ensures
        final(out)@ == old(out)@ + be16(x),
{
    out.push((x / 256) as u8);
    out.push((x % 256) as u8);
}

impl DnsHeader {
    /// The header of `buf`, or `None` when it is shorter than twelve bytes.
    pub fn parse(buf: &[u8]) -> (r: Option<Self>)
        ensures
            buf@.len() < 12 ==> r is None,
            buf@.len() >= 12 ==> r == Some(header_of(buf@)),
    {
        if buf.len() < 12 {
            return None;
        }
        Some(
            DnsHeader {
                id: read_be16(buf, 0),
                flags: read_be16(buf, 2),
                qdcount: read_be16(buf, 4),
                ancount: read_be16(buf, 6),
                nscount: read_be16(buf, 8),
                arcount: read_be16(buf, 10),
            },
        )
    }

    /// The message is a query: its QR bit (the top bit of the flags) is clear.
    pub fn is_query(&self) -> (r: bool)
        ensures
            r == (self.flags < 0x8000),
    {
        let f = self.flags;
        assert((f & 0x8000u16 == 0u16) == (f < 0x8000u16)) by (bit_vector);
        (f & 0x8000) == 0
    }
}

/// The query name read from `pos` on, appended to `name`: labels (each
/// decoded as `String::from_utf8_lossy` does) joined with dots, ended by a
/// zero byte; `None` when the bytes run out. Every non-zero byte is taken as
/// a label length.
pub open spec fn query_name_from(buf: Seq<u8>, pos: int, name: Seq<char>) -> Option<(Seq<char>, int)>
    decreases buf.len() - pos,
{
    if pos < 0 || pos >= buf.len() {
        None
    } else if buf[pos] == 0 {
        Some((name, pos + 1))
    } else {
        let len = buf[pos] as int;
        if pos + 1 + len > buf.len() {
            None
        } else {
            let label = lossy_text(buf.subrange(pos + 1, pos + 1 + len));
            let next = if name.len() > 0 {
                name.push('.') + label
            } else {
                label
            };
            query_name_from(buf, pos + 1 + len, next)
        }
    }
}

pub open spec fn opt_name_view(r: Option<(String, usize)>) -> Option<(Seq<char>, int)> {
    match r {
        Some((s, e)) => Some((s@, e as int)),
        None => None,
    }
}

/// Reads the dotted query name starting at `offset` and the offset after it.
pub fn parse_query_name(buf: &[u8], offset: usize) -> (r: Option<(String, usize)>)
    ensures
        opt_name_view(r) == query_name_from(buf@, offset as int, Seq::empty()),
{
    let mut name = String::new();
    let mut pos = offset;
    loop
        invariant
            query_name_from(buf@, offset as int, Seq::empty()) == query_name_from(buf@, pos as int, name@),
        decreases buf@.len() - pos,
    {
        if pos >= buf.len() {
            return None;
        }
        let len = buf[pos] as usize;
        if len == 0 {
            return Some((name, pos + 1));
        }
        if buf.len() - pos - 1 < len {
            return None;
        }
        let bytes = &buf[pos + 1..pos + 1 + len];
        assert(bytes@ == buf@.subrange(pos + 1, pos + 1 + len));
        let label = from_utf8_lossy(bytes);
        if !name.as_str().is_empty() {
            push_char(&mut name, '.');
        }
        let lc = chars_of(label.as_str());
        crate::text::push_chars(&mut name, lc.as_slice());
        pos = pos + 1 + len;
    }
}

/// The reply to a query for `query_name` whose question ends at
/// `query_end`: id, flags 0x8180 and question count; for a name ending in
/// `.test` one answer and no other records, the question, then an answer
/// pointing back at the name (type A, class IN, TTL 60) holding 127.0.0.1;
/// for any other name the counts of `header` and the question alone.
pub open spec fn dns_response(header: DnsHeader, query_name: Seq<char>, query_end: int, original: Seq<u8>) -> Seq<u8> {
    let is_test = ends_with(query_name, ".test"@);
    be16(header.id) + seq![0x81u8, 0x80u8] + be16(header.qdcount) + (if is_test {
        seq![0u8, 1u8, 0u8, 0u8, 0u8, 0u8]
    } else {
        be16(header.ancount) + be16(header.nscount) + be16(header.arcount)
    }) + original.subrange(12, query_end) + (if is_test {
        seq![0xC0u8, 0x0Cu8, 0u8, 1u8, 0u8, 1u8, 0u8, 0u8, 0u8, 60u8, 0u8, 4u8, 127u8, 0u8, 0u8, 1u8]
    } else {
        Seq::empty()
    })
}

/// Builds the reply described by `dns_response`.
pub fn build_dns_response(header: &DnsHeader, query_name: &str, query_end: usize, original: &[u8]) -> (r: Vec<u8>)
    requires
        12 <= query_end <= original@.len(),
    ensures
        r@ == dns_response(*header, query_name@, query_end as int, original@),
{
    let mut resp: Vec<u8> = Vec::with_capacity(512);
    push_be16(&mut resp, header.id);
    resp.push(0x81);
    resp.push(0x80);
    push_be16(&mut resp, header.qdcount);
    let name = chars_of(query_name);
    let suffix = chars_of(".test");
    let is_test = has_suffix(name.as_slice(), suffix.as_slice());
    if is_test {
        push_be16(&mut resp, 1);
        push_be16(&mut resp, 0);
        push_be16(&mut resp, 0);
    } else {
        push_be16(&mut resp, header.ancount);
        push_be16(&mut resp, header.nscount);
        push_be16(&mut resp, header.arcount);
    }
    let question = &original[12..query_end];
    assert(question@ == original@.subrange(12, query_end as int));
    push_bytes(&mut resp, question);
    if is_test {
        let answer: [u8; 16] = [0xC0, 0x0C, 0, 1, 0, 1, 0, 0, 0, 60, 0, 4, 127, 0, 0, 1];
        push_bytes(&mut resp, answer.as_slice());
        assert(answer@ == seq![0xC0u8, 0x0Cu8, 0u8, 1u8, 0u8, 1u8, 0u8, 0u8, 0u8, 60u8, 0u8, 4u8, 127u8, 0u8, 0u8, 1u8]);
    }
    assert(resp@ =~= dns_response(*header, query_name@, query_end as int, original@));
    resp
}

/// What the responder does with one received packet.
pub enum DnsAction {
    /// Drop it: too short, not a query, or a malformed name.
    Ignore,
    /// Send these bytes back to the asker.
    Answer(Vec<u8>),
    /// Pass the packet to the upstream server and relay its reply.
    Forward,
}

/// Decides what to do with the packet `buf`.
pub fn handle_query(buf: &[u8]) -> (r: DnsAction)
    ensures
        match r {
            DnsAction::Ignore => buf@.len() < 12 || header_of(buf@).flags >= 0x8000
                || query_name_from(buf@, 12, Seq::empty()) is None,
            DnsAction::Answer(resp) => {
                &&& buf@.len() >= 12
                &&& header_of(buf@).flags < 0x8000
                &&& query_name_from(buf@, 12, Seq::empty()) matches Some((name, end))
                &&& ends_with(name, ".test"@)
                &&& resp@ == dns_response(header_of(buf@), name, end, buf@)
            },
            DnsAction::Forward => {
                &&& buf@.len() >= 12
                &&& header_of(buf@).flags < 0x8000
                &&& query_name_from(buf@, 12, Seq::empty()) matches Some((name, _))
                &&& !ends_with(name, ".test"@)
            },
        },
{
    let header = match DnsHeader::parse(buf) {
        Some(h) => h,
        None => return DnsAction::Ignore,
    };
    if !header.is_query() {
        return DnsAction::Ignore;
    }
    let (name, query_end) = match parse_query_name(buf, 12) {
        Some(r) => r,
        None => return DnsAction::Ignore,
    };
    proof {
        lemma_query_name_end(buf@, 12, Seq::empty());
    }
    let chars = chars_of(name.as_str());
    let suffix = chars_of(".test");
    if has_suffix(chars.as_slice(), suffix.as_slice()) {
        DnsAction::Answer(build_dns_response(&header, name.as_str(), query_end, buf))
    } else {
        DnsAction::Forward
    }
}

proof fn lemma_query_name_end(buf: Seq<u8>, pos: int, name: Seq<char>)
    requires
        pos >= 0,
    ensures
        query_name_from(buf, pos, name) matches Some((_, end)) ==> pos < end <= buf.len(),
    decreases buf.len() - pos,
{
    if 0 <= pos < buf.len() && buf[pos] != 0 {
        let len = buf[pos] as int;
        if pos + 1 + len <= buf.len() {
            let label = lossy_text(buf.subrange(pos + 1, pos + 1 + len));
            let next = if name.len() > 0 {
                name.push('.') + label
            } else {
                label
            };
            lemma_query_name_end(buf, pos + 1 + len, next);
        }
    }
}


/// A `.test` name is answered with one record holding 127.0.0.1: the reply
/// announces one answer and ends with the address bytes 127, 0, 0, 1.
pub proof fn law_test_names_resolve_to_loopback(
    header: DnsHeader,
    query_name: Seq<char>,
    query_end: int,
    original: Seq<u8>,
)
    requires
        12 <= query_end <= original.len(),
        ends_with(query_name, ".test"@),
    ensures
        ({
            let r = dns_response(header, query_name, query_end, original);
            &&& r.subrange(6, 8) == seq![0u8, 1u8]
            &&& r.subrange(r.len() - 4, r.len() as int) == seq![127u8, 0u8, 0u8, 1u8]
        }),
{
    let r = dns_response(header, query_name, query_end, original);
    assert(r.subrange(6, 8) =~= seq![0u8, 1u8]);
    assert(r.subrange(r.len() - 4, r.len() as int) =~= seq![127u8, 0u8, 0u8, 1u8]);
}

/// Every reply repeats the query id, sets the response flags 0x8180 and
/// keeps the question count, then repeats the question unchanged.
pub proof fn law_reply_echoes_query(header: DnsHeader, query_name: Seq<char>, query_end: int, original: Seq<u8>)
    requires
        12 <= query_end <= original.len(),
    ensures
        ({
            let r = dns_response(header, query_name, query_end, original);
            &&& r.subrange(0, 6) == be16(header.id) + seq![0x81u8, 0x80u8] + be16(header.qdcount)
            &&& r.subrange(12, query_end) == original.subrange(12, query_end)
        }),
{
    let r = dns_response(header, query_name, query_end, original);
    assert(r.subrange(0, 6) =~= be16(header.id) + seq![0x81u8, 0x80u8] + be16(header.qdcount));
    assert(r.subrange(12, query_end) =~= original.subrange(12, query_end));
}

/// A call on the responder: a start, with whether its socket could be
/// bound, or a stop.
pub enum ServerCall {
    Start(bool),
    Stop,
}

/// Whether a fresh responder runs after `calls`: a start makes it run when
/// its socket is bound (a running one keeps running), a stop ends it.
pub open spec fn runs_after(calls: Seq<ServerCall>) -> bool
    decreases calls.len(),
{
    if calls.len() == 0 {
        false
    } else {
        match calls.last() {
            ServerCall::Start(bound) => runs_after(calls.drop_last()) || bound,
            ServerCall::Stop => false,
        }
    }
}

/// The call at `i` is a start that succeeds: none ran before it and its
/// socket was bound.
pub open spec fn start_succeeded(calls: Seq<ServerCall>, i: int) -> bool {
    calls[i] matches ServerCall::Start(bound) && bound && !runs_after(calls.take(i))
}

/// The start at `i` succeeded and no stop came after it.
pub open spec fn still_up_from(calls: Seq<ServerCall>, i: int) -> bool {
    &&& 0 <= i < calls.len()
    &&& start_succeeded(calls, i)
    &&& forall|j: int| i < j < calls.len() ==> !(#[trigger] calls[j] is Stop)
}

/// The responder runs exactly when some start succeeded and no stop came
/// after it; before any start it does not run.
pub proof fn law_running_after_calls(calls: Seq<ServerCall>)
    ensures
        runs_after(calls) <==> exists|i: int| #[trigger] still_up_from(calls, i),
    decreases calls.len(),
{
    if calls.len() > 0 {
        let p = calls.drop_last();
        let n = calls.len() - 1;
        law_running_after_calls(p);
        assert forall|i: int| 0 <= i < n implies calls.take(i) == p.take(i) by {
            assert(calls.take(i) =~= p.take(i));
        }
        assert(calls.take(n) =~= p);
        match calls.last() {
            ServerCall::Start(bound) => {
                assert forall|i: int| 0 <= i < n implies (still_up_from(calls, i) <==> still_up_from(p, i)) by {
                    assert(calls[i] == p[i]);
                    if still_up_from(p, i) {
                        assert forall|j: int| i < j < calls.len() implies !(#[trigger] calls[j] is Stop) by {
                            if j < n {
                                assert(calls[j] == p[j]);
                            }
                        }
                    }
                    if still_up_from(calls, i) {
                        assert forall|j: int| i < j < p.len() implies !(#[trigger] p[j] is Stop) by {
                            assert(calls[j] == p[j]);
                        }
                    }
                }
                if runs_after(calls) {
                    if runs_after(p) {
                        let i = choose|i: int| #[trigger] still_up_from(p, i);
                        assert(still_up_from(calls, i));
                    } else {
                        assert(still_up_from(calls, n));
                    }
                } else {
                    assert forall|i: int| !#[trigger] still_up_from(calls, i) by {
                        if 0 <= i < n {
                            assert(!still_up_from(p, i));
                        }
                    }
                }
            },
            ServerCall::Stop => {
                assert forall|i: int| !#[trigger] still_up_from(calls, i) by {
                    if 0 <= i < n {
                        assert(calls[n] is Stop);
                    }
                }
            },
        }
    } else {
        assert forall|i: int| !#[trigger] still_up_from(calls, i) by {}
    }
}

/// Whether the responder runs. At most one responder runs at a time.
pub struct DnsServer {
    running: bool,
    calls: Ghost<Seq<ServerCall>>,
}

impl DnsServer {
    #[verifier::type_invariant]
    spec fn follows_calls(&self) -> bool {
        self.running == runs_after(self.calls@)
    }

    pub closed spec fn runs(&self) -> bool {
        self.running
    }

    /// The starts and stops made on this responder, in order.
    pub closed spec fn calls(&self) -> Seq<ServerCall> {
        self.calls@
    }

    /// A responder that does not run, with no call made yet.
    pub fn new() -> (s: Self)
        ensures
            !s.runs(),
            s.calls() == Seq::<ServerCall>::empty(),
    {
        DnsServer { running: false, calls: Ghost(Seq::empty()) }
    }

    /// A start may be tried: no responder runs yet. (When one runs, starting
    /// another fails.)
    pub fn may_start(&self) -> (r: bool)
        ensures
            r == !self.runs(),
    {
        !self.running
    }

    /// Records that the socket is bound and the serving loop started (a
    /// start whose socket was bound).
    pub fn started(&mut self)
        ensures
            final(self).runs(),
            final(self).calls() == old(self).calls().push(ServerCall::Start(true)),
    {
        let ghost calls = self.calls@.push(ServerCall::Start(true));
        assert(calls.drop_last() =~= self.calls@);
        *self = DnsServer { running: true, calls: Ghost(calls) };
    }

    /// Settles a start: `bound` tells whether the socket could be bound (it
    /// is only tried when no responder runs). The start succeeds exactly when
    /// none ran and the socket was bound; afterwards the responder runs when
    /// it ran before or the start succeeded.
    pub fn start_dns_proxy(&mut self, bound: bool) -> (r: bool)
        ensures
            r == (!old(self).runs() && bound),
            final(self).runs() == (old(self).runs() || bound),
            final(self).calls() == old(self).calls().push(ServerCall::Start(bound)),
    {
        proof {
            use_type_invariant(&*self);
        }
        let ghost calls = self.calls@.push(ServerCall::Start(bound));
        assert(calls.drop_last() =~= self.calls@);
        let was = self.running;
        *self = DnsServer { running: was || bound, calls: Ghost(calls) };
        !was && bound
    }

    /// Asks the serving loop to end.
    pub fn stop_dns_proxy(&mut self)
        ensures
            !final(self).runs(),
            final(self).calls() == old(self).calls().push(ServerCall::Stop),
    {
        let ghost calls = self.calls@.push(ServerCall::Stop);
        *self = DnsServer { running: false, calls: Ghost(calls) };
    }

    /// Whether the responder runs: exactly when some start made on it
    /// succeeded and no stop came after it.
    pub fn is_dns_running(&self) -> (r: bool)
        ensures
            r == self.runs(),
            r == runs_after(self.calls()),
            r <==> exists|i: int| #[trigger] still_up_from(self.calls(), i),
    {
        proof {
            use_type_invariant(self);
            law_running_after_calls(self.calls@);
        }
        self.running
    }
}

} // verus!
