//! DNS proxy — resolves `<svc>.<namespace>` from the in-memory service map.
//! Non-matching queries forwarded to upstream.
//!
//! Example: `nginx.default` → 10.96.64.132
use crate::network::ipv4::{self, Ipv4Addr};
use crate::kube::services::KubeServiceView;
use crate::network::service_map::{self, ServiceEntryView, ServiceMap};
use crate::text::{
    self, is_blank, join_text, lines_of, push_viewed, same_text, split_text, trim_text, utf8_text,
};
use vstd::prelude::*;
use vstd::slice::slice_subrange;

verus! {

broadcast use vstd::std_specs::hash::group_hash_axioms;

/// Where the proxy listens.
pub const DNS_LISTEN_ADDR: &'static str = "127.0.0.53:53";

/// The upstream server where none was saved.
pub const DEFAULT_UPSTREAM: &'static str = "8.8.8.8:53";

// ── Upstream ────────────────────────────────────────────

/// The first line that holds more than white space.
pub open spec fn first_filled(ls: Seq<Seq<char>>) -> Option<Seq<char>>
    decreases ls.len(),
{
    if ls.len() == 0 {
        None
    } else if !text::blank(ls[0]) {
        Some(ls[0])
    } else {
        first_filled(ls.skip(1))
    }
}

/// The upstream server that a saved list of servers asks for: its first filled line, on port 53.
pub open spec fn upstream(saved: Seq<char>) -> Seq<char> {
    match first_filled(text::lines(saved)) {
        Some(line) => text::trim(line) + ":53"@,
        None => DEFAULT_UPSTREAM@,
    }
}

/// Picks the upstream server from the saved list; an empty list stands for none saved.
pub fn get_upstream_dns(saved: &str) -> (res: String)
    ensures
        res@ == upstream(saved@),
{
    let ls = lines_of(saved);
    let mut i: usize = 0;
    assert(ls.deep_view().skip(0) =~= ls.deep_view());
    while i < ls.len()
        invariant
            i <= ls@.len(),
            ls.deep_view() == text::lines(saved@),
            first_filled(ls.deep_view()) == first_filled(ls.deep_view().skip(i as int)),
        decreases ls@.len() - i,
    {
        assert(ls.deep_view().skip(i as int)[0] == ls@[i as int]@);
        if !is_blank(ls[i].as_str()) {
            let mut server = trim_text(ls[i].as_str());
            server.append(":53");
            return server;
        }
        assert(ls.deep_view().skip(i as int).skip(1) =~= ls.deep_view().skip(i + 1));
        i += 1;
    }
    DEFAULT_UPSTREAM.to_string()
}

// ── Reading queries ─────────────────────────────────────

/// The labels of the name that starts at `pos`: each is a length byte and that many bytes of UTF-8,
/// up to a zero byte. `None` where the packet ends too early or a label is no text.
pub open spec fn labels_at(packet: Seq<u8>, pos: int) -> Option<Seq<Seq<char>>>
    decreases packet.len() - pos,
{
    if pos < 0 || pos >= packet.len() {
        None
    } else if packet[pos] == 0 {
        Some(Seq::empty())
    } else {
        let next = pos + 1 + packet[pos];
        if next > packet.len() {
            None
        } else {
            let label = packet.subrange(pos + 1, next);
            match labels_at(packet, next) {
                Some(rest) => if vstd::utf8::valid_utf8(label) {
                    Some(seq![vstd::utf8::decode_utf8(label)] + rest)
                } else {
                    None
                },
                None => None,
            }
        }
    }
}

/// The name that a query packet asks for, its labels separated by dots. The name follows the
/// twelve bytes of the header; no query is shorter than seventeen bytes.
pub open spec fn query_name(packet: Seq<u8>) -> Option<Seq<char>> {
    if packet.len() < 17 {
        None
    } else {
        match labels_at(packet, 12) {
            Some(labels) => Some(text::join(labels, "."@)),
            None => None,
        }
    }
}

/// Reads the name that a query packet asks for.
pub fn parse_query_name(packet: &[u8]) -> (res: Option<String>)
    ensures
        res.deep_view() == query_name(packet@),
{
    if packet.len() < 17 {
        return None;
    }
    let mut pos: usize = 12;
    let mut labels: Vec<String> = Vec::new();
    assert(labels.deep_view() =~= Seq::empty());
    proof {
        if let Some(all) = labels_at(packet@, 12) {
            assert(labels.deep_view() + all =~= all);
        }
    }
    loop
        invariant
            12 <= pos <= packet@.len(),
            packet@.len() >= 17,
            labels_at(packet@, 12) == (match labels_at(packet@, pos as int) {
                Some(rest) => Some(labels.deep_view() + rest),
                None => None,
            }),
        ensures
            labels_at(packet@, 12) == Some(labels.deep_view()),
        decreases packet@.len() - pos,
    {
        if pos >= packet.len() {
            return None;
        }
        let len: usize = packet[pos] as usize;
        if len == 0 {
            assert(labels.deep_view() + Seq::empty() =~= labels.deep_view());
            break;
        }
        if len > packet.len() - pos - 1 {
            return None;
        }
        let end: usize = pos + 1 + len;
        let ghost label = packet@.subrange(pos + 1, end as int);
        match utf8_text(slice_subrange(packet, pos + 1, end)) {
            Some(t) => {
                let ghost before = labels.deep_view();
                push_viewed(&mut labels, t.to_string());
                proof {
                    if let Some(rest) = labels_at(packet@, end as int) {
                        assert(before + (seq![vstd::utf8::decode_utf8(label)] + rest)
                            =~= labels.deep_view() + rest);
                    }
                }
            },
            None => {
                return None;
            },
        }
        pos = end;
    }
    Some(join_text(&labels, "."))
}

// ── Writing responses ───────────────────────────────────

/// The position just behind the name that starts at `pos`, or past the end of a packet that is cut
/// off within the name.
pub open spec fn name_end(packet: Seq<u8>, pos: int) -> int
    decreases packet.len() - pos,
{
    if pos < 0 || pos >= packet.len() {
        pos
    } else if packet[pos] == 0 {
        pos + 1
    } else {
        let next = pos + 1 + packet[pos];
        if next >= packet.len() {
            next
        } else {
            name_end(packet, next)
        }
    }
}

/// The header and the question of a packet: everything up to the four bytes behind the name.
pub open spec fn question(packet: Seq<u8>) -> Seq<u8> {
    let end = name_end(packet, 12) + 4;
    if end <= packet.len() {
        packet.take(end)
    } else {
        packet
    }
}

/// A packet that is at least as long as a header, filled up with zero bytes.
pub open spec fn padded(packet: Seq<u8>) -> Seq<u8> {
    if packet.len() < 12 {
        packet + Seq::new((12 - packet.len()) as nat, |i: int| 0u8)
    } else {
        packet
    }
}

/// The flags and counts of an authoritative answer without error: one question, one answer.
pub open spec fn answer_header() -> Seq<u8> {
    seq![0x85u8, 0x80u8, 0u8, 1u8, 0u8, 1u8, 0u8, 0u8, 0u8, 0u8]
}

/// An answer record for the name at the start of the question: type A, class IN, thirty seconds to
/// live, four bytes of address.
pub open spec fn answer_record() -> Seq<u8> {
    seq![0xC0u8, 0x0Cu8, 0u8, 1u8, 0u8, 1u8, 0u8, 0u8, 0u8, 0x1Eu8, 0u8, 4u8]
}

/// The response that answers a query with an address: the query's identifier, the header of an
/// answer, the question, and one answer record.
pub open spec fn dns_answer(query: Seq<u8>, ip: Ipv4Addr) -> Seq<u8> {
    let start = padded(question(query));
    start.take(2) + answer_header() + start.skip(12) + answer_record() + ipv4::octet_seq(ip)
}

/// The response that no such name exists: the query with the flags of that response. A packet too
/// short to hold flags stays as it is.
pub open spec fn nxdomain(query: Seq<u8>) -> Seq<u8> {
    if query.len() > 3 {
        query.update(2, 0x81u8).update(3, 0x83u8)
    } else {
        query
    }
}

/// Appends the bytes of `from` up to position `end`.
fn push_bytes(to: &mut Vec<u8>, from: &[u8], end: usize)
    requires
        end <= from@.len(),
    ensures
        final(to)@ == old(to)@ + from@.take(end as int),
{
    let mut i: usize = 0;
    assert(to@ + from@.take(0) =~= to@);
    while i < end
        invariant
            i <= end <= from@.len(),
            to@ == old(to)@ + from@.take(i as int),
        decreases end - i,
    {
        to.push(from[i]);
        assert((old(to)@ + from@.take(i as int)).push(from@[i as int]) =~= old(to)@ + from@.take(
            i + 1,
        ));
        i += 1;
    }
}

/// Where the question of a packet ends.
fn question_end(query: &[u8]) -> (res: usize)
    ensures
        res <= query@.len(),
        query@.take(res as int) == question(query@),
{
    let size: usize = query.len();
    assert(query@.take(size as int) =~= query@);
    if size <= 12 {
        return size;
    }
    let mut pos: usize = 12;
    while pos < size
        invariant
            size == query@.len(),
            query@.take(size as int) == query@,
            12 <= pos <= size,
            name_end(query@, 12) == name_end(query@, pos as int),
        decreases size - pos,
    {
        let len: usize = query[pos] as usize;
        if len == 0 {
            if size - pos >= 5 {
                return pos + 5;
            }
            return size;
        }
        if len > size - pos - 1 {
            return size;
        }
        pos = pos + 1 + len;
    }
    size
}

/// Answers a query with an address.
pub fn build_dns_response(query: &[u8], ip: Ipv4Addr) -> (res: Vec<u8>)
    ensures
        res@ == dns_answer(query@, ip),
{
    let end = question_end(query);
    let mut resp: Vec<u8> = Vec::new();
    push_bytes(&mut resp, query, end);
    assert(resp@ =~= question(query@));
    let ghost bare = resp@;
    while resp.len() < 12
        invariant
            bare.len() <= resp@.len(),
            bare.len() < 12 ==> resp@.len() <= 12,
            bare.len() >= 12 ==> resp@ == bare,
            resp@ == bare + Seq::new((resp@.len() - bare.len()) as nat, |i: int| 0u8),
        decreases 12 - resp@.len(),
    {
        resp.push(0);
        assert(resp@ =~= bare + Seq::new((resp@.len() - bare.len()) as nat, |i: int| 0u8));
    }
    assert(resp@ =~= padded(bare));
    resp.set(2, 0x85);
    resp.set(3, 0x80);
    resp.set(4, 0x00);
    resp.set(5, 0x01);
    resp.set(6, 0x00);
    resp.set(7, 0x01);
    resp.set(8, 0x00);
    resp.set(9, 0x00);
    resp.set(10, 0x00);
    resp.set(11, 0x00);
    let record: [u8; 12] = [0xC0, 0x0C, 0x00, 0x01, 0x00, 0x01, 0x00, 0x00, 0x00, 0x1E, 0x00, 0x04];
    push_bytes(&mut resp, record.as_slice(), 12);
    let octets = ip.octets();
    push_bytes(&mut resp, octets.as_slice(), 4);
    assert(resp@ =~= dns_answer(query@, ip));
    resp
}

/// Answers a query with the news that no such name exists.
pub fn build_nxdomain(query: &[u8]) -> (res: Vec<u8>)
    ensures
        res@ == nxdomain(query@),
{
    let mut resp: Vec<u8> = Vec::new();
    push_bytes(&mut resp, query, query.len());
    assert(resp@ =~= query@);
    if resp.len() > 3 {
        resp.set(2, 0x81);
        resp.set(3, 0x83);
    }
    resp
}

// ── Resolving ───────────────────────────────────────────

/// `res` is what a name resolves to: an address of the service that the first label names in the
/// namespace that the second label names. Further labels do not count. Nothing exactly where the
/// name has a single label or no such service is in the map.
pub open spec fn resolution(
    map: Map<u32, Seq<ServiceEntryView>>,
    name: Seq<char>,
    res: Option<Ipv4Addr>,
) -> bool {
    let parts = text::split(name, '.');
    match res {
        Some(ip) => parts.len() >= 2 && service_map::holds_service(
            map,
            ipv4::bits(ip),
            parts[0],
            parts[1],
        ),
        None => parts.len() < 2 || forall|ip: u32|
            !service_map::holds_service(map, ip, parts[0], parts[1]),
    }
}

/// Resolve `<svc>.<ns>` from the service map.
/// Format: "nginx.default" → parts[0]=nginx, parts[1]=default
pub fn resolve_from_map(name: &str, map: &ServiceMap) -> (res: Option<Ipv4Addr>)
    ensures
        resolution(map@, name@, res),
{
    let parts = split_text(name, '.');
    assert(parts.deep_view().len() == parts@.len());
    if parts.len() < 2 {
        return None;
    }
    let svc_name = &parts[0];
    let namespace = &parts[1];
    assert(parts.deep_view()[0] == svc_name@ && parts.deep_view()[1] == namespace@);
    let ghost pairs = vstd::std_specs::iter::IteratorSpec::remaining(
        &vstd::std_specs::hash::spec_hash_map_iter(&map.by_ip),
    );
    for (ip, entries) in it: map.by_ip.iter()
        invariant
            it.seq() == pairs,
            pairs == vstd::std_specs::iter::IteratorSpec::remaining(
                &vstd::std_specs::hash::spec_hash_map_iter(&map.by_ip),
            ),
            text::split(name@, '.').len() >= 2,
            text::split(name@, '.')[0] == svc_name@,
            text::split(name@, '.')[1] == namespace@,
            forall|k: int|
                #![trigger pairs[k]]
                0 <= k < it.index() ==> !service_map::holds_service(
                    map@,
                    *pairs[k].0,
                    svc_name@,
                    namespace@,
                ),
    {
        let ghost n = it.index();
        assert(pairs[n] == (ip, entries));
        assert(map.by_ip@.contains_key(*pairs[n].0) && map.by_ip@[*pairs[n].0] == *entries);
        assert(map@[*ip] == entries.deep_view());
        let mut k: usize = 0;
        while k < entries.len()
            invariant
                k <= entries@.len(),
                map@.contains_key(*ip),
                map@[*ip] == entries.deep_view(),
                text::split(name@, '.').len() >= 2,
                text::split(name@, '.')[0] == svc_name@,
                text::split(name@, '.')[1] == namespace@,
                forall|m: int|
                    0 <= m < k ==> !service_map::entry_is(
                        #[trigger] map@[*ip][m],
                        svc_name@,
                        namespace@,
                    ),
            decreases entries@.len() - k,
        {
            assert(map@[*ip][k as int] == entries@[k as int]@);
            if entries[k].belongs_to(svc_name.as_str(), namespace.as_str()) {
                return Some(Ipv4Addr::from_bits(*ip));
            }
            k += 1;
        }
    }
    proof {
        assert forall|ip: u32| !service_map::holds_service(map@, ip, svc_name@, namespace@) by {
            if map@.contains_key(ip) {
                assert(pairs.contains((&ip, &map.by_ip@[ip])));
                let k = choose|k: int| 0 <= k < pairs.len() && pairs[k] == (&ip, &map.by_ip@[ip]);
                assert(!service_map::holds_service(map@, *pairs[k].0, svc_name@, namespace@));
            }
        }
    }
    None
}

// ── Handling queries ────────────────────────────────────

/// What the proxy does with a packet that came in.
#[derive(Debug)]
pub enum QueryAction {
    /// Drop it.
    Ignore,
    /// Send this response back.
    Reply { response: Vec<u8> },
    /// Ask the upstream server, and send back what `forwarded_response` makes of the outcome.
    Forward,
}

pub enum QueryActionView {
    Ignore,
    Reply { response: Seq<u8> },
    Forward,
}

impl View for QueryAction {
    type V = QueryActionView;

    open spec fn view(&self) -> QueryActionView {
        match self {
            QueryAction::Ignore => QueryActionView::Ignore,
            QueryAction::Reply { response } => QueryActionView::Reply { response: response@ },
            QueryAction::Forward => QueryActionView::Forward,
        }
    }
}

/// The name asks for something in one of the namespaces: its second label is one of them.
pub open spec fn cluster_query(name: Seq<char>, namespaces: Seq<Seq<char>>) -> bool {
    let parts = text::split(name, '.');
    parts.len() >= 2 && namespaces.contains(parts[1])
}

/// The response to a name that resolved, or did not.
pub open spec fn response_for(packet: Seq<u8>, found: Option<Ipv4Addr>) -> Seq<u8> {
    match found {
        Some(ip) => dns_answer(packet, ip),
        None => nxdomain(packet),
    }
}

/// `action` is right for a packet: unreadable packets are dropped, names outside the namespaces are
/// forwarded, and the others are answered from the map.
pub open spec fn handled(
    packet: Seq<u8>,
    namespaces: Seq<Seq<char>>,
    map: Map<u32, Seq<ServiceEntryView>>,
    action: QueryActionView,
) -> bool {
    match query_name(packet) {
        None => action == QueryActionView::Ignore,
        Some(name) => if cluster_query(name, namespaces) {
            exists|found: Option<Ipv4Addr>| #[trigger]
                resolution(map, name, found) && action == (QueryActionView::Reply {
                    response: response_for(packet, found),
                })
        } else {
            action == QueryActionView::Forward
        },
    }
}

fn in_namespaces(name: &str, namespaces: &Vec<String>) -> (res: bool)
    ensures
        res == cluster_query(name@, namespaces.deep_view()),
{
    let parts = split_text(name, '.');
    assert(parts.deep_view().len() == parts@.len());
    if parts.len() < 2 {
        return false;
    }
    assert(parts.deep_view()[1] == parts@[1]@);
    let mut i: usize = 0;
    while i < namespaces.len()
        invariant
            i <= namespaces@.len(),
            parts@.len() >= 2,
            parts.deep_view() == text::split(name@, '.'),
            parts.deep_view()[1] == parts@[1]@,
            forall|k: int| 0 <= k < i ==> (#[trigger] namespaces.deep_view()[k]) != parts@[1]@,
        decreases namespaces@.len() - i,
    {
        if same_text(namespaces[i].as_str(), parts[1].as_str()) {
            assert(namespaces.deep_view()[i as int] == parts@[1]@);
            return true;
        }
        i += 1;
    }
    false
}

/// Decides what to do with a packet, given the namespaces that are served and the service map.
pub fn answer_query(packet: &[u8], namespaces: &Vec<String>, map: &ServiceMap) -> (action:
    QueryAction)
    ensures
        handled(packet@, namespaces.deep_view(), map@, action@),
{
    let name = match parse_query_name(packet) {
        Some(name) => name,
        None => return QueryAction::Ignore,
    };
    if in_namespaces(name.as_str(), namespaces) {
        let found = resolve_from_map(name.as_str(), map);
        let response = match found {
            Some(ip) => build_dns_response(packet, ip),
            None => build_nxdomain(packet),
        };
        assert(resolution(map@, name@, found) && response@ == response_for(packet@, found));
        QueryAction::Reply { response }
    } else {
        QueryAction::Forward
    }
}

/// The response to a forwarded packet: the upstream's own, or that no such name exists where the
/// upstream gave none.
pub fn forwarded_response(packet: &[u8], upstream_reply: Option<Vec<u8>>) -> (res: Vec<u8>)
    ensures
        res@ == (match upstream_reply {
            Some(reply) => reply@,
            None => nxdomain(packet@),
        }),
{
    match upstream_reply {
        Some(reply) => reply,
        None => build_nxdomain(packet),
    }
}

// ── Laws ────────────────────────────────────────────────

/// A name on the wire: each label behind its length, and a zero byte.
pub open spec fn encoded_name(labels: Seq<Seq<char>>) -> Seq<u8>
    decreases labels.len(),
{
    if labels.len() == 0 {
        seq![0u8]
    } else {
        let label = vstd::utf8::encode_utf8(labels[0]);
        seq![label.len() as u8] + label + encoded_name(labels.skip(1))
    }
}

/// A label that fits behind a length byte.
pub open spec fn label_fits(label: Seq<char>) -> bool {
    1 <= vstd::utf8::encode_utf8(label).len() <= 255
}

proof fn lemma_labels_read_back(head: Seq<u8>, labels: Seq<Seq<char>>, tail: Seq<u8>)
    requires
        forall|i: int| 0 <= i < labels.len() ==> label_fits(#[trigger] labels[i]),
    ensures
        labels_at(head + encoded_name(labels) + tail, head.len() as int) == Some(labels),
    decreases labels.len(),
{
    let packet = head + encoded_name(labels) + tail;
    if labels.len() == 0 {
        assert(packet[head.len() as int] == 0);
        assert(labels =~= Seq::empty());
    } else {
        let first = vstd::utf8::encode_utf8(labels[0]);
        let rest = labels.skip(1);
        assert(label_fits(labels[0]));
        assert forall|i: int| 0 <= i < rest.len() implies label_fits(#[trigger] rest[i]) by {
            assert(rest[i] == labels[i + 1]);
        }
        let longer = head + (seq![first.len() as u8] + first);
        lemma_labels_read_back(longer, rest, tail);
        assert(packet =~= longer + encoded_name(rest) + tail);
        assert(packet[head.len() as int] == first.len() as u8);
        assert(packet.subrange(head.len() as int + 1, longer.len() as int) =~= first);
        vstd::utf8::encode_utf8_valid_utf8(labels[0]);
        vstd::utf8::encode_utf8_decode_utf8(labels[0]);
        assert(seq![labels[0]] + rest =~= labels);
    }
}

/// A query written with the given labels asks for those labels, separated by dots.
pub proof fn law_query_read_back(header: Seq<u8>, labels: Seq<Seq<char>>, tail: Seq<u8>)
    requires
        header.len() == 12,
        tail.len() >= 4,
        forall|i: int| 0 <= i < labels.len() ==> label_fits(#[trigger] labels[i]),
    ensures
        query_name(header + encoded_name(labels) + tail) == Some(text::join(labels, "."@)),
{
    lemma_labels_read_back(header, labels, tail);
    lemma_encoded_name_nonempty(labels);
}

proof fn lemma_encoded_name_nonempty(labels: Seq<Seq<char>>)
    ensures
        encoded_name(labels).len() >= 1,
{
}

/// A name that can be read ends within the packet.
proof fn lemma_name_within(x: Seq<u8>, pos: int)
    requires
        labels_at(x, pos) is Some,
    ensures
        pos < name_end(x, pos) <= x.len(),
    decreases x.len() - pos,
{
    if x[pos] != 0 {
        lemma_name_within(x, pos + 1 + x[pos]);
    }
}

/// Packets that agree up to the end of the name hold the same labels.
proof fn lemma_labels_agree(x: Seq<u8>, y: Seq<u8>, pos: int)
    requires
        0 <= pos,
        labels_at(x, pos) is Some,
        name_end(x, pos) <= y.len(),
        forall|i: int| pos <= i < name_end(x, pos) ==> x[i] == y[i],
    ensures
        labels_at(y, pos) == labels_at(x, pos),
    decreases x.len() - pos,
{
    lemma_name_within(x, pos);
    if x[pos] != 0 {
        let next = pos + 1 + x[pos];
        lemma_name_within(x, next);
        assert(x[pos] == y[pos]);
        lemma_labels_agree(x, y, next);
        assert(x.subrange(pos + 1, next) =~= y.subrange(pos + 1, next));
    } else {
        assert(x[pos] == y[pos]);
    }
}

/// An answer keeps the identifier of its query, repeats the question, and ends with the address.
pub proof fn law_answer_matches_query(query: Seq<u8>, ip: Ipv4Addr)
    requires
        query_name(query) is Some,
    ensures
        query_name(dns_answer(query, ip)) == query_name(query),
        dns_answer(query, ip).take(2) == query.take(2),
        dns_answer(query, ip).skip(dns_answer(query, ip).len() - 4) == ipv4::octet_seq(ip),
{
    let answer = dns_answer(query, ip);
    let end = name_end(query, 12);
    lemma_name_within(query, 12);
    assert(question(query).len() >= end);
    assert forall|i: int| 12 <= i < end implies query[i] == answer[i] by {
        assert(question(query)[i] == query[i]);
    }
    lemma_labels_agree(query, answer, 12);
    assert(answer.take(2) =~= query.take(2));
    assert(answer.skip(answer.len() - 4) =~= ipv4::octet_seq(ip));
}

/// A response that no such name exists differs from its query in the two flag bytes alone, and asks
/// for the same name.
pub proof fn law_nxdomain_matches_query(query: Seq<u8>)
    ensures
        query_name(nxdomain(query)) == query_name(query),
        nxdomain(query).len() == query.len(),
        forall|i: int| 0 <= i < query.len() && i != 2 && i != 3 ==> nxdomain(query)[i] == query[i],
{
    let response = nxdomain(query);
    if query.len() >= 17 {
        lemma_labels_same(query, response, 12);
    }
}

proof fn lemma_labels_same(x: Seq<u8>, y: Seq<u8>, pos: int)
    requires
        0 <= pos,
        x.len() == y.len(),
        forall|i: int| pos <= i < x.len() ==> x[i] == y[i],
    ensures
        labels_at(x, pos) == labels_at(y, pos),
    decreases x.len() - pos,
{
    if pos < x.len() && x[pos] != 0 {
        let next = pos + 1 + x[pos];
        if next <= x.len() {
            lemma_labels_same(x, y, next);
            assert(x.subrange(pos + 1, next) =~= y.subrange(pos + 1, next));
        }
    }
}

/// A query for a service of a served namespace is answered with an address of that service: where
/// the first two labels name a service that has a port and an address to route to, the reply is the
/// answer with the address of a service of that name.
pub proof fn law_service_is_answered(
    services: Seq<KubeServiceView>,
    i: int,
    packet: Seq<u8>,
    name: Seq<char>,
    namespaces: Seq<Seq<char>>,
    action: QueryActionView,
)
    requires
        0 <= i < services.len(),
        service_map::routable(services[i].cluster_ip) is Some,
        services[i].ports.len() > 0,
        query_name(packet) == Some(name),
        text::split(name, '.').len() >= 2,
        text::split(name, '.')[0] == services[i].name,
        text::split(name, '.')[1] == services[i].namespace,
        namespaces.contains(services[i].namespace),
        handled(
            packet,
            namespaces,
            service_map::grouped(service_map::all_entries(services)),
            action,
        ),
    ensures
        exists|ip: Ipv4Addr| #[trigger]
            service_map::routed_at(services, services[i].name, services[i].namespace, ip) && action
                == (QueryActionView::Reply { response: dns_answer(packet, ip) }),
{
    let map = service_map::grouped(service_map::all_entries(services));
    let wanted = services[i];
    let found = choose|found: Option<Ipv4Addr>| #[trigger]
        resolution(map, name, found) && action == (QueryActionView::Reply {
            response: response_for(packet, found),
        });
    let own = service_map::routable(wanted.cluster_ip).unwrap();
    assert(service_map::routed_at(services, wanted.name, wanted.namespace, own));
    service_map::law_map_holds_services(services, wanted.name, wanted.namespace, own);
    assert(service_map::holds_service(map, ipv4::bits(own), wanted.name, wanted.namespace));
    match found {
        Some(ip) => {
            service_map::law_map_holds_services(services, wanted.name, wanted.namespace, ip);
        },
        None => {},
    }
}

/// A query for a name in a served namespace that no routed service carries is answered with the
/// news that no such name exists.
pub proof fn law_unknown_service_is_denied(
    services: Seq<KubeServiceView>,
    packet: Seq<u8>,
    name: Seq<char>,
    namespaces: Seq<Seq<char>>,
    action: QueryActionView,
)
    requires
        query_name(packet) == Some(name),
        text::split(name, '.').len() >= 2,
        namespaces.contains(text::split(name, '.')[1]),
        forall|ip: Ipv4Addr|
            !service_map::routed_at(
                services,
                text::split(name, '.')[0],
                text::split(name, '.')[1],
                ip,
            ),
        handled(
            packet,
            namespaces,
            service_map::grouped(service_map::all_entries(services)),
            action,
        ),
    ensures
        action == (QueryActionView::Reply { response: nxdomain(packet) }),
{
    let map = service_map::grouped(service_map::all_entries(services));
    let parts = text::split(name, '.');
    let found = choose|found: Option<Ipv4Addr>| #[trigger]
        resolution(map, name, found) && action == (QueryActionView::Reply {
            response: response_for(packet, found),
        });
    if let Some(ip) = found {
        service_map::law_map_holds_services(services, parts[0], parts[1], ip);
    }
}

/// From the packet to the reply: a query written for `<svc>.<ns>`, with neither holding a dot, is
/// answered with the address of that service, where no other service shares its name and namespace.
pub proof fn law_short_name_resolves(
    services: Seq<KubeServiceView>,
    i: int,
    header: Seq<u8>,
    tail: Seq<u8>,
    namespaces: Seq<Seq<char>>,
    action: QueryActionView,
)
    requires
        0 <= i < services.len(),
        service_map::routable(services[i].cluster_ip) is Some,
        services[i].ports.len() > 0,
        forall|j: int|
            0 <= j < services.len() && (#[trigger] services[j]).name == services[i].name
                && services[j].namespace == services[i].namespace ==> j == i,
        label_fits(services[i].name),
        label_fits(services[i].namespace),
        !services[i].name.contains('.'),
        !services[i].namespace.contains('.'),
        header.len() == 12,
        tail.len() >= 4,
        namespaces.contains(services[i].namespace),
        handled(
            header + encoded_name(seq![services[i].name, services[i].namespace]) + tail,
            namespaces,
            service_map::grouped(service_map::all_entries(services)),
            action,
        ),
    ensures
        action == (QueryActionView::Reply {
            response: dns_answer(
                header + encoded_name(seq![services[i].name, services[i].namespace]) + tail,
                service_map::routable(services[i].cluster_ip).unwrap(),
            ),
        }),
{
    let labels = seq![services[i].name, services[i].namespace];
    let packet = header + encoded_name(labels) + tail;
    law_query_read_back(header, labels, tail);
    reveal_strlit(".");
    assert("."@ =~= seq!['.']);
    text::lemma_split_join(labels, '.');
    law_service_is_answered(services, i, packet, text::join(labels, "."@), namespaces, action);
}

/// A query is forwarded where its name has no second label, or the second label is none of the served
/// namespaces.
pub proof fn law_other_names_are_forwarded(
    packet: Seq<u8>,
    name: Seq<char>,
    namespaces: Seq<Seq<char>>,
    map: Map<u32, Seq<ServiceEntryView>>,
    action: QueryActionView,
)
    requires
        query_name(packet) == Some(name),
        !(text::split(name, '.').len() >= 2 && namespaces.contains(text::split(name, '.')[1])),
        handled(packet, namespaces, map, action),
    ensures
        action == QueryActionView::Forward,
{
}

/// A query whose second label is a served namespace is never forwarded. It is answered with the address
/// of an entry that carries the first label as its name and the second as its namespace, or, where the
/// map has no such entry, with the news that no such name exists.
pub proof fn law_served_names_are_answered(
    packet: Seq<u8>,
    name: Seq<char>,
    namespaces: Seq<Seq<char>>,
    map: Map<u32, Seq<ServiceEntryView>>,
    action: QueryActionView,
)
    requires
        query_name(packet) == Some(name),
        text::split(name, '.').len() >= 2,
        namespaces.contains(text::split(name, '.')[1]),
        handled(packet, namespaces, map, action),
    ensures
        (exists|ip: Ipv4Addr, k: int|
            {
                &&& map.contains_key(ipv4::bits(ip))
                &&& 0 <= k < map[ipv4::bits(ip)].len()
                &&& (#[trigger] map[ipv4::bits(ip)][k]).name == text::split(name, '.')[0]
                &&& map[ipv4::bits(ip)][k].namespace == text::split(name, '.')[1]
                &&& action == (QueryActionView::Reply { response: dns_answer(packet, ip) })
            }) || (action == (QueryActionView::Reply { response: nxdomain(packet) }) && forall|
            ip: u32,
            k: int,
        |
            map.contains_key(ip) && 0 <= k < map[ip].len() ==> (#[trigger] map[ip][k]).name
                != text::split(name, '.')[0] || map[ip][k].namespace != text::split(name, '.')[1]),
{
    let parts = text::split(name, '.');
    let found = choose|found: Option<Ipv4Addr>| #[trigger]
        resolution(map, name, found) && action == (QueryActionView::Reply {
            response: response_for(packet, found),
        });
    match found {
        Some(ip) => {
            service_map::law_service_is_found_by_both_names(map, ipv4::bits(ip), parts[0], parts[1]);
        },
        None => {
            assert forall|ip: u32, k: int|
                map.contains_key(ip) && 0 <= k < map[ip].len() implies (#[trigger] map[ip][k]).name
                != parts[0] || map[ip][k].namespace != parts[1] by {
                assert(!service_map::holds_service(map, ip, parts[0], parts[1]));
                service_map::law_service_is_found_by_both_names(map, ip, parts[0], parts[1]);
            }
        },
    }
}

/// A packet that holds no readable name is dropped, and no packet under seventeen bytes holds one.
pub proof fn law_unreadable_packets_are_dropped(
    packet: Seq<u8>,
    namespaces: Seq<Seq<char>>,
    map: Map<u32, Seq<ServiceEntryView>>,
    action: QueryActionView,
)
    requires
        handled(packet, namespaces, map, action),
    ensures
        query_name(packet) is None <==> action == QueryActionView::Ignore,
        packet.len() < 17 ==> action == QueryActionView::Ignore,
{
}

/// A name resolves to an address only where an entry at that address carries the first label as its
/// name and the second as its namespace, and to nothing only where no entry does. It resolves to
/// nothing where it has a single label.
pub proof fn law_resolves_by_two_labels(
    map: Map<u32, Seq<ServiceEntryView>>,
    name: Seq<char>,
    res: Option<Ipv4Addr>,
)
    requires
        resolution(map, name, res),
    ensures
        text::split(name, '.').len() < 2 ==> res is None,
        res matches Some(ip) ==> map.contains_key(ipv4::bits(ip)) && exists|k: int|
            0 <= k < map[ipv4::bits(ip)].len() && (#[trigger] map[ipv4::bits(ip)][k]).name
                == text::split(name, '.')[0] && map[ipv4::bits(ip)][k].namespace == text::split(
                name,
                '.',
            )[1],
        res is None && text::split(name, '.').len() >= 2 ==> forall|ip: u32, k: int|
            map.contains_key(ip) && 0 <= k < map[ip].len() ==> (#[trigger] map[ip][k]).name
                != text::split(name, '.')[0] || map[ip][k].namespace != text::split(name, '.')[1],
{
    let parts = text::split(name, '.');
    match res {
        Some(ip) => {
            service_map::law_service_is_found_by_both_names(map, ipv4::bits(ip), parts[0], parts[1]);
        },
        None => {
            assert forall|ip: u32, k: int|
                parts.len() >= 2 && map.contains_key(ip) && 0 <= k < map[ip].len() implies (
            #[trigger] map[ip][k]).name != parts[0] || map[ip][k].namespace != parts[1] by {
                assert(!service_map::holds_service(map, ip, parts[0], parts[1]));
                service_map::law_service_is_found_by_both_names(map, ip, parts[0], parts[1]);
            }
        },
    }
}

/// A packet that asks for a name has that name behind the twelve bytes of its header: labels that each
/// fit behind a length byte, and that read, with dots between them, as the name.
pub proof fn law_read_name_stands_in_packet(packet: Seq<u8>, name: Seq<char>)
    requires
        query_name(packet) == Some(name),
    ensures
        packet.len() >= 17,
        exists|labels: Seq<Seq<char>>|
            {
                &&& name == text::join(labels, "."@)
                &&& forall|i: int| 0 <= i < labels.len() ==> label_fits(#[trigger] labels[i])
                &&& #[trigger] encoded_name(labels).is_prefix_of(packet.skip(12))
            },
{
    let labels = labels_at(packet, 12).unwrap();
    lemma_labels_written(packet, 12);
    assert(encoded_name(labels).is_prefix_of(packet.skip(12)));
}

proof fn lemma_labels_written(packet: Seq<u8>, pos: int)
    requires
        labels_at(packet, pos) is Some,
    ensures
        0 <= pos < packet.len(),
        forall|i: int|
            0 <= i < labels_at(packet, pos).unwrap().len() ==> label_fits(
                #[trigger] labels_at(packet, pos).unwrap()[i],
            ),
        encoded_name(labels_at(packet, pos).unwrap()).is_prefix_of(packet.skip(pos)),
    decreases packet.len() - pos,
{
    let labels = labels_at(packet, pos).unwrap();
    if packet[pos] == 0 {
        assert(labels.len() == 0);
        assert(seq![0u8].is_prefix_of(packet.skip(pos)));
    } else {
        let next = pos + 1 + packet[pos];
        let label = packet.subrange(pos + 1, next);
        let rest = labels_at(packet, next).unwrap();
        lemma_labels_written(packet, next);
        vstd::utf8::decode_utf8_encode_utf8(label);
        assert(labels =~= seq![vstd::utf8::decode_utf8(label)] + rest);
        assert(labels.skip(1) =~= rest);
        assert(labels[0] == vstd::utf8::decode_utf8(label));
        assert(vstd::utf8::encode_utf8(labels[0]) == label);
        assert forall|i: int| 0 <= i < labels.len() implies label_fits(#[trigger] labels[i]) by {
            if i > 0 {
                assert(labels[i] == rest[i - 1]);
            }
        }
        let tail = encoded_name(rest);
        assert(encoded_name(labels) == seq![label.len() as u8] + label + tail);
        assert forall|i: int| 0 <= i < encoded_name(labels).len() implies encoded_name(labels)[i]
            == packet.skip(pos)[i] by {
            if i > label.len() {
                assert(encoded_name(labels)[i] == tail[i - 1 - label.len()]);
                assert(tail[i - 1 - label.len()] == packet.skip(next)[i - 1 - label.len()]);
            }
        }
        assert(encoded_name(labels) =~= packet.skip(pos).take(encoded_name(labels).len() as int));
    }
}

proof fn lemma_written_name_end(head: Seq<u8>, labels: Seq<Seq<char>>, tail: Seq<u8>)
    requires
        forall|i: int| 0 <= i < labels.len() ==> label_fits(#[trigger] labels[i]),
    ensures
        name_end(head + encoded_name(labels) + tail, head.len() as int) == head.len()
            + encoded_name(labels).len(),
    decreases labels.len(),
{
    let packet = head + encoded_name(labels) + tail;
    if labels.len() == 0 {
        assert(packet[head.len() as int] == 0);
    } else {
        let first = vstd::utf8::encode_utf8(labels[0]);
        let rest = labels.skip(1);
        assert(label_fits(labels[0]));
        assert forall|i: int| 0 <= i < rest.len() implies label_fits(#[trigger] rest[i]) by {
            assert(rest[i] == labels[i + 1]);
        }
        let longer = head + (seq![first.len() as u8] + first);
        lemma_written_name_end(longer, rest, tail);
        lemma_encoded_name_nonempty(rest);
        assert(packet =~= longer + encoded_name(rest) + tail);
        assert(packet[head.len() as int] == first.len() as u8);
    }
}

/// The bytes of an answer: the identifier of the query; the flags of an authoritative answer, with one
/// question and one answer; the name that was asked for and the four bytes behind it; and a record that
/// points at that name, of type A and class IN, with thirty seconds to live, four bytes of data, and
/// the four octets of the address. Where fewer than four bytes stand behind the name, those are kept.
pub proof fn law_answer_bytes(
    header: Seq<u8>,
    labels: Seq<Seq<char>>,
    tail: Seq<u8>,
    ip: Ipv4Addr,
)
    requires
        header.len() == 12,
        forall|i: int| 0 <= i < labels.len() ==> label_fits(#[trigger] labels[i]),
    ensures
        dns_answer(header + encoded_name(labels) + tail, ip) == seq![
            header[0],
            header[1],
            0x85u8,
            0x80u8,
            0u8,
            1u8,
            0u8,
            1u8,
            0u8,
            0u8,
            0u8,
            0u8,
        ] + encoded_name(labels) + (if tail.len() > 4 {
            tail.take(4)
        } else {
            tail
        }) + seq![
            0xC0u8,
            0x0Cu8,
            0u8,
            1u8,
            0u8,
            1u8,
            0u8,
            0u8,
            0u8,
            30u8,
            0u8,
            4u8,
            ip.a,
            ip.b,
            ip.c,
            ip.d,
        ],
{
    let query = header + encoded_name(labels) + tail;
    let kept = if tail.len() > 4 {
        tail.take(4)
    } else {
        tail
    };
    lemma_written_name_end(header, labels, tail);
    assert(question(query) =~= header + encoded_name(labels) + kept);
    assert(padded(question(query)).skip(12) =~= encoded_name(labels) + kept);
}

/// The answer to a query no longer than a header: the header is filled up with zeros where it is cut
/// off, and the answer record follows at once.
pub proof fn law_answer_to_bare_header(query: Seq<u8>, ip: Ipv4Addr)
    requires
        query.len() <= 12,
    ensures
        dns_answer(query, ip).len() == 28,
        dns_answer(query, ip)[0] == (if query.len() > 0 {
            query[0]
        } else {
            0
        }),
        dns_answer(query, ip)[1] == (if query.len() > 1 {
            query[1]
        } else {
            0
        }),
        dns_answer(query, ip).subrange(2, 12) == seq![
            0x85u8,
            0x80u8,
            0u8,
            1u8,
            0u8,
            1u8,
            0u8,
            0u8,
            0u8,
            0u8,
        ],
        dns_answer(query, ip).skip(24) == seq![ip.a, ip.b, ip.c, ip.d],
{
    assert(question(query) == query);
    assert(dns_answer(query, ip).subrange(2, 12) =~= answer_header());
    assert(dns_answer(query, ip).skip(24) =~= ipv4::octet_seq(ip));
}

proof fn lemma_cut_name_end(head: Seq<u8>, labels: Seq<Seq<char>>, n: u8, part: Seq<u8>)
    requires
        forall|i: int| 0 <= i < labels.len() ==> label_fits(#[trigger] labels[i]),
        part.len() <= n,
        n > 0,
    ensures
        name_end(
            head + encoded_name(labels).drop_last() + seq![n] + part,
            head.len() as int,
        ) >= (head + encoded_name(labels).drop_last() + seq![n] + part).len(),
    decreases labels.len(),
{
    let packet = head + encoded_name(labels).drop_last() + seq![n] + part;
    lemma_encoded_name_nonempty(labels);
    if labels.len() == 0 {
        assert(packet[head.len() as int] == n);
    } else {
        let first = vstd::utf8::encode_utf8(labels[0]);
        let rest = labels.skip(1);
        assert(label_fits(labels[0]));
        assert forall|i: int| 0 <= i < rest.len() implies label_fits(#[trigger] rest[i]) by {
            assert(rest[i] == labels[i + 1]);
        }
        let longer = head + (seq![first.len() as u8] + first);
        lemma_cut_name_end(longer, rest, n, part);
        lemma_encoded_name_nonempty(rest);
        assert(packet =~= longer + encoded_name(rest).drop_last() + seq![n] + part);
        assert(packet[head.len() as int] == first.len() as u8);
    }
}

/// The answer to a query that ends within its name keeps all that stands behind the header.
pub proof fn law_answer_to_cut_name(
    header: Seq<u8>,
    labels: Seq<Seq<char>>,
    n: u8,
    part: Seq<u8>,
    ip: Ipv4Addr,
)
    requires
        header.len() == 12,
        forall|i: int| 0 <= i < labels.len() ==> label_fits(#[trigger] labels[i]),
        part.len() <= n,
        n > 0,
    ensures
        ({
            let behind = encoded_name(labels).drop_last() + seq![n] + part;
            let answer = dns_answer(header + behind, ip);
            &&& answer.len() == 28 + behind.len()
            &&& answer.take(2) == header.take(2)
            &&& answer.subrange(12, 12 + behind.len() as int) == behind
            &&& answer.skip(24 + behind.len() as int) == seq![ip.a, ip.b, ip.c, ip.d]
        }),
{
    let behind = encoded_name(labels).drop_last() + seq![n] + part;
    let query = header + behind;
    lemma_cut_name_end(header, labels, n, part);
    assert(query =~= header + encoded_name(labels).drop_last() + seq![n] + part);
    assert(question(query) == query);
    let answer = dns_answer(query, ip);
    assert(answer.take(2) =~= header.take(2));
    assert(answer.subrange(12, 12 + behind.len() as int) =~= behind);
    assert(answer.skip(24 + behind.len() as int) =~= ipv4::octet_seq(ip));
}

/// The response that no such name exists carries the flags of a response with that error, where the
/// packet is long enough to hold them.
pub proof fn law_nxdomain_flags(query: Seq<u8>)
    ensures
        query.len() > 3 ==> nxdomain(query)[2] == 0x81 && nxdomain(query)[3] == 0x83,
        query.len() <= 3 ==> nxdomain(query) == query,
{
}

/// The upstream server is the first saved line that holds more than white space, without the white
/// space round it, on port 53.
pub proof fn law_upstream_is_first_filled_line(
    ls: Seq<Seq<char>>,
    k: int,
    a: Seq<char>,
    server: Seq<char>,
    b: Seq<char>,
)
    requires
        0 <= k < ls.len(),
        forall|i: int|
            0 <= i < ls.len() ==> !(#[trigger] ls[i]).contains('\n') && (ls[i].len() > 0
                ==> ls[i].last() != '\r'),
        forall|i: int, j: int|
            0 <= i < k && 0 <= j < ls[i].len() ==> text::is_space(#[trigger] ls[i][j]),
        ls[k] == a + server + b,
        text::blank(a),
        text::blank(b),
        server.len() > 0,
        !text::is_space(server[0]),
        !text::is_space(server.last()),
    ensures
        upstream(text::join(ls, seq!['\n']) + seq!['\n']) == server + ":53"@,
{
    text::lemma_lines_written(ls);
    assert(ls[k][a.len() as int] == server[0]);
    assert(!text::blank(ls[k]));
    lemma_first_filled(ls, k);
    text::law_trim_finds_core(a, server, b);
}

proof fn lemma_first_filled(ls: Seq<Seq<char>>, k: int)
    requires
        0 <= k <= ls.len(),
        forall|i: int| 0 <= i < k ==> text::blank(#[trigger] ls[i]),
        k < ls.len() ==> !text::blank(ls[k]),
    ensures
        first_filled(ls) == (if k < ls.len() {
            Some(ls[k])
        } else {
            None
        }),
    decreases k,
{
    if k > 0 {
        assert(text::blank(ls[0]));
        let rest = ls.skip(1);
        assert forall|i: int| 0 <= i < k - 1 implies text::blank(#[trigger] rest[i]) by {
            assert(rest[i] == ls[i + 1]);
        }
        lemma_first_filled(rest, k - 1);
    }
}

/// Where every saved line is blank, the upstream server is the public one.
pub proof fn law_upstream_without_servers(ls: Seq<Seq<char>>)
    requires
        forall|i: int|
            0 <= i < ls.len() ==> !(#[trigger] ls[i]).contains('\n') && (ls[i].len() > 0
                ==> ls[i].last() != '\r'),
        forall|i: int, j: int|
            0 <= i < ls.len() && 0 <= j < ls[i].len() ==> text::is_space(#[trigger] ls[i][j]),
    ensures
        ls.len() > 0 ==> upstream(text::join(ls, seq!['\n']) + seq!['\n']) == "8.8.8.8:53"@,
        upstream(Seq::empty()) == "8.8.8.8:53"@,
{
    if ls.len() > 0 {
        text::lemma_lines_written(ls);
        lemma_first_filled(ls, ls.len() as int);
    }
    assert(text::lines(Seq::<char>::empty()).len() == 0);
}

} // verus!
