//! The DNS seed responder: reading a query, and answering it with a sample
//! of the reachable peers or with "not implemented".

use rand::seq::IteratorRandom;
use vstd::prelude::*;
use vstd::slice::slice_subrange;
use vstd::string::StringExecFns;

use crate::p2p::address::{Endpoint, Ip, IpAddress, PeerAddress};
use crate::p2p::bytes::{be_u16_at, push_bytes, push_u16_be, read_u16_be, u16_be};
use crate::p2p::database::{reachable_addresses, PeerDatabase};
use crate::p2p::text::{spec_utf8_lossy, str_eq, utf8_lossy};

verus! {

/// How many peers one answer holds at most.
pub const MAX_PEERS: usize = 10;

/// The UDP port that the responder listens on.
pub const DNS_PORT: u16 = 1053;

/// Where the name that starts at `at` ends: the place of the zero byte after
/// its labels. `None` where a label runs past the end of the request, or the
/// request ends before the zero byte.
pub open spec fn name_end(req: Seq<u8>, at: int) -> Option<int>
    decreases req.len() - at,
{
    if at < 0 || at >= req.len() {
        None
    } else if req[at] == 0 {
        Some(at)
    } else if at + 1 + req[at] > req.len() {
        None
    } else {
        name_end(req, at + 1 + req[at])
    }
}

/// The name that starts at `at`, as text: each label, decoded as UTF-8 with
/// U+FFFD for what is invalid, followed by a dot.
pub open spec fn name_text(req: Seq<u8>, at: int) -> Seq<char>
    decreases req.len() - at,
{
    if at < 0 || at >= req.len() || req[at] == 0 || at + 1 + req[at] > req.len() {
        Seq::empty()
    } else {
        spec_utf8_lossy(req.subrange(at + 1, at + 1 + req[at])) + seq!['.'] + name_text(
            req,
            at + 1 + req[at],
        )
    }
}

/// Where the question of a request ends: after the name that starts at
/// offset 12, its zero byte, and the four bytes of type and class. `None`
/// where the request does not hold all of that.
pub open spec fn question_end(req: Seq<u8>) -> Option<int> {
    match name_end(req, 12) {
        None => None,
        Some(zero) => if zero + 5 > req.len() {
            None
        } else {
            Some(zero + 5)
        },
    }
}

/// The question section of a request, as it stands.
pub open spec fn question(req: Seq<u8>) -> Seq<u8> {
    req.subrange(12, question_end(req)->0)
}

/// What a request asks.
pub ghost struct DnsQuery {
    pub txid: u16,
    /// Whether the question has type A and class IN.
    pub is_a_query: bool,
    pub qname: Seq<char>,
}

/// The query that a request holds. `None` for fewer than 12 bytes, a
/// response (the top bit of the flags is set), a question count of zero, or
/// a question that is not whole.
pub open spec fn parsed_query(req: Seq<u8>) -> Option<DnsQuery> {
    if req.len() < 12 || req[2] >= 0x80 || be_u16_at(req, 4) == 0 {
        None
    } else {
        match question_end(req) {
            None => None,
            Some(end) => Some(
                DnsQuery {
                    txid: be_u16_at(req, 0) as u16,
                    is_a_query: be_u16_at(req, end - 4) == 1 && be_u16_at(req, end - 2) == 1,
                    qname: name_text(req, 12),
                },
            ),
        }
    }
}

/// Finds the end of the question, for a request of at least 12 bytes.
fn find_question_end(req: &[u8]) -> (end: Option<usize>)
    ensures
        end is Some <==> question_end(req@) is Some,
        end matches Some(e) ==> e == question_end(req@)->0 && 17 <= e <= req@.len(),
{
    let len: usize = req.len();
    let mut idx: usize = 12;
    while idx < len && req[idx] != 0
        invariant
            12 <= idx,
            len == req@.len(),
            name_end(req@, 12) == name_end(req@, idx as int),
        decreases len - idx,
    {
        let label: usize = req[idx] as usize;
        if label > len - idx - 1 {
            return None;
        }
        idx = idx + 1 + label;
    }
    if idx >= len {
        return None;
    }
    if len - idx < 5 {
        return None;
    }
    Some(idx + 5)
}

/// Reads a DNS request: the transaction id, whether it asks for an A record
/// of class IN, and the name it asks for, with a dot after each label.
pub fn parse_dns_query(req: &[u8]) -> (query: Option<(u16, bool, String)>)
    ensures
        query is Some <==> parsed_query(req@) is Some,
        query matches Some(q) ==> parsed_query(req@) == Some(
            DnsQuery { txid: q.0, is_a_query: q.1, qname: q.2@ },
        ),
{
    let len: usize = req.len();
    if len < 12 {
        return None;
    }
    let txid: u16 = read_u16_be(req, 0);
    let qdcount: u16 = read_u16_be(req, 4);
    if req[2] >= 0x80 || qdcount == 0 {
        return None;
    }
    let end: usize = match find_question_end(req) {
        None => {
            return None;
        },
        Some(e) => e,
    };
    let mut qname: String = String::new();
    let mut idx: usize = 12;
    while idx < len && req[idx] != 0
        invariant
            12 <= idx,
            len == req@.len(),
            name_end(req@, 12) is Some,
            name_end(req@, 12) == name_end(req@, idx as int),
            name_text(req@, 12) == qname@ + name_text(req@, idx as int),
        decreases len - idx,
    {
        let label: usize = req[idx] as usize;
        assert(idx + 1 + label <= len);
        let text: String = utf8_lossy(slice_subrange(req, idx + 1, idx + 1 + label));
        let ghost before = qname@;
        qname.append(text.as_str());
        qname.append(".");
        proof {
            reveal_strlit(".");
            assert("."@ =~= seq!['.']);
            assert(qname@ =~= before + (text@ + seq!['.']));
            assert(before + name_text(req@, idx as int) =~= qname@ + name_text(
                req@,
                idx + 1 + label,
            ));
        }
        idx = idx + 1 + label;
    }
    assert(qname@ =~= name_text(req@, 12));
    let qtype: u16 = read_u16_be(req, end - 4);
    let qclass: u16 = read_u16_be(req, end - 2);
    Some((txid, qtype == 1 && qclass == 1, qname))
}

/// The four bytes that an A record gives for a peer: the octets of an IPv4
/// address, zeros for an IPv6 address.
pub open spec fn a_record_data(peer: Endpoint) -> Seq<u8> {
    match peer.ip {
        Ip::V4(o) => o,
        Ip::V6(_) => seq![0u8, 0u8, 0u8, 0u8],
    }
}

/// One answer: a pointer to the name at offset 12, type A, class IN, a time
/// to live of 60 seconds, and four bytes of data.
pub open spec fn a_record(peer: Endpoint) -> Seq<u8> {
    seq![
        0xC0u8,
        0x0Cu8,
        0x00u8,
        0x01u8,
        0x00u8,
        0x01u8,
        0x00u8,
        0x00u8,
        0x00u8,
        0x3Cu8,
        0x00u8,
        0x04u8,
    ]
        + a_record_data(peer)
}

/// The answers for `peers`, one after the other.
pub open spec fn a_records(peers: Seq<Endpoint>) -> Seq<u8>
    decreases peers.len(),
{
    if peers.len() == 0 {
        Seq::empty()
    } else {
        a_records(peers.drop_last()) + a_record(peers.last())
    }
}

/// The response that hands out `peers`: the request's id, flags `0x8180`,
/// one question, as many answers as peers, the question as it was asked,
/// and the answers.
pub open spec fn seed_response(req: Seq<u8>, txid: u16, peers: Seq<Endpoint>) -> Seq<u8> {
    u16_be(txid) + seq![0x81u8, 0x80u8, 0x00u8, 0x01u8] + u16_be(peers.len() as u16) + seq![
        0x00u8,
        0x00u8,
        0x00u8,
        0x00u8,
    ] + question(req) + a_records(peers)
}

/// The response to what is not served: the request's id, flags `0x8184`
/// (RCODE 4, not implemented), one question, no answers, and the question
/// as it was asked.
pub open spec fn notimpl_response(req: Seq<u8>, txid: u16) -> Seq<u8> {
    u16_be(txid) + seq![
        0x81u8,
        0x84u8,
        0x00u8,
        0x01u8,
        0x00u8,
        0x00u8,
        0x00u8,
        0x00u8,
        0x00u8,
        0x00u8,
    ] + question(req)
}

/// The shape of the "not implemented" response: twelve bytes of header with
/// flags `0x8184`, a question count of one and all other counts zero, then
/// the question of the request and nothing more.
pub proof fn lemma_notimpl_shape(req: Seq<u8>, txid: u16)
    requires
        question_end(req) is Some,
    ensures
        ({
            let resp = notimpl_response(req, txid);
            &&& resp.len() == 12 + question(req).len()
            &&& be_u16_at(resp, 0) == txid
            &&& be_u16_at(resp, 2) == 0x8184
            &&& be_u16_at(resp, 4) == 1
            &&& be_u16_at(resp, 6) == 0
            &&& be_u16_at(resp, 8) == 0
            &&& be_u16_at(resp, 10) == 0
            &&& resp.subrange(12, resp.len() as int) == question(req)
        }),
{
    let resp = notimpl_response(req, txid);
    assert(resp.subrange(12, resp.len() as int) =~= question(req));
}

/// The answers take 16 bytes for each peer.
pub proof fn lemma_a_records_len(peers: Seq<Endpoint>)
    requires
        forall|i: int| 0 <= i < peers.len() ==> (#[trigger] peers[i]).ip.well_formed(),
    ensures
        a_records(peers).len() == 16 * peers.len(),
    decreases peers.len(),
{
    if peers.len() > 0 {
        assert forall|i: int| 0 <= i < peers.drop_last().len() implies (
        #[trigger] peers.drop_last()[i]).ip.well_formed() by {
            assert(peers.drop_last()[i] == peers[i]);
        }
        lemma_a_records_len(peers.drop_last());
        assert(peers.last().ip.well_formed());
    }
}

/// The shape of the response that hands out peers: twelve bytes of header
/// with flags `0x8180`, a question count of one, an answer count of the
/// number of peers and the other counts zero; then the question of the
/// request; then 16 bytes of answer for each peer.
pub proof fn lemma_seed_response_shape(req: Seq<u8>, txid: u16, peers: Seq<Endpoint>)
    requires
        question_end(req) is Some,
        peers.len() <= 0xFFFF,
        forall|i: int| 0 <= i < peers.len() ==> (#[trigger] peers[i]).ip.well_formed(),
    ensures
        ({
            let resp = seed_response(req, txid, peers);
            let asked = question(req).len() as int;
            &&& resp.len() == 12 + asked + 16 * peers.len()
            &&& be_u16_at(resp, 0) == txid
            &&& be_u16_at(resp, 2) == 0x8180
            &&& be_u16_at(resp, 4) == 1
            &&& be_u16_at(resp, 6) == peers.len()
            &&& be_u16_at(resp, 8) == 0
            &&& be_u16_at(resp, 10) == 0
            &&& resp.subrange(12, 12 + asked) == question(req)
            &&& resp.subrange(12 + asked, resp.len() as int) == a_records(peers)
        }),
{
    let resp = seed_response(req, txid, peers);
    let asked = question(req).len() as int;
    lemma_a_records_len(peers);
    crate::p2p::bytes::lemma_u16_be_round_trip(peers.len() as u16);
    assert(resp[6] == u16_be(peers.len() as u16)[0]);
    assert(resp[7] == u16_be(peers.len() as u16)[1]);
    assert(resp.subrange(12, 12 + asked) =~= question(req));
    assert(resp.subrange(12 + asked, resp.len() as int) =~= a_records(peers));
}

/// Builds the response that hands out `peers`.
///
/// The request must hold a whole question, and the peers must be few enough
/// for the 16-bit answer count.
pub fn build_dns_response(req: &[u8], txid: u16, peers: &[PeerAddress]) -> (resp: Vec<u8>)
    requires
        question_end(req@) is Some,
        peers@.len() <= 0xFFFF,
    ensures
        resp@ == seed_response(req@, txid, peers.deep_view()),
{
    let mut resp: Vec<u8> = Vec::new();
    push_u16_be(&mut resp, txid);
    resp.push(0x81);
    resp.push(0x80);
    resp.push(0x00);
    resp.push(0x01);
    push_u16_be(&mut resp, peers.len() as u16);
    resp.push(0x00);
    resp.push(0x00);
    resp.push(0x00);
    resp.push(0x00);
    let end: usize = match find_question_end(req) {
        Some(e) => e,
        None => 12,
    };
    push_bytes(&mut resp, slice_subrange(req, 12, end));
    let ghost head = resp@;
    let ghost all = peers.deep_view();
    assert(head =~= u16_be(txid) + seq![0x81u8, 0x80u8, 0x00u8, 0x01u8] + u16_be(
        peers@.len() as u16,
    ) + seq![0x00u8, 0x00u8, 0x00u8, 0x00u8] + question(req@));
    assert(resp@ =~= head + a_records(all.take(0)));
    let n: usize = peers.len();
    let mut i: usize = 0;
    while i < n
        invariant
            i <= n,
            n == peers@.len(),
            all == peers.deep_view(),
            resp@ == head + a_records(all.take(i as int)),
        decreases n - i,
    {
        let ghost before = resp@;
        resp.push(0xC0);
        resp.push(0x0C);
        resp.push(0x00);
        resp.push(0x01);
        resp.push(0x00);
        resp.push(0x01);
        resp.push(0x00);
        resp.push(0x00);
        resp.push(0x00);
        resp.push(0x3C);
        resp.push(0x00);
        resp.push(0x04);
        match peers[i].ip {
            IpAddress::V4(o) => {
                push_bytes(&mut resp, o.as_slice());
            },
            IpAddress::V6(_) => {
                resp.push(0);
                resp.push(0);
                resp.push(0);
                resp.push(0);
            },
        }
        proof {
            assert(all.take(i + 1).drop_last() =~= all.take(i as int));
            assert(all.take(i + 1).last() == peers@[i as int]@);
            assert(resp@ =~= before + a_record(peers@[i as int]@));
        }
        i += 1;
    }
    assert(all.take(n as int) =~= all);
    assert(resp@ =~= seed_response(req@, txid, all));
    resp
}

/// Builds the response to a request that is not served.
///
/// The request must hold a whole question.
pub fn build_dns_notimpl(req: &[u8], txid: u16) -> (resp: Vec<u8>)
    requires
        question_end(req@) is Some,
    ensures
        resp@ == notimpl_response(req@, txid),
{
    let mut resp: Vec<u8> = Vec::new();
    push_u16_be(&mut resp, txid);
    resp.push(0x81);
    resp.push(0x84);
    resp.push(0x00);
    resp.push(0x01);
    resp.push(0x00);
    resp.push(0x00);
    resp.push(0x00);
    resp.push(0x00);
    resp.push(0x00);
    resp.push(0x00);
    let end: usize = match find_question_end(req) {
        Some(e) => e,
        None => 12,
    };
    push_bytes(&mut resp, slice_subrange(req, 12, end));
    assert(resp@ =~= notimpl_response(req@, txid));
    resp
}

/// Whether `sample` is a sample of `pool` without replacement, of `amount`
/// peers or of the whole pool if that holds fewer: so many peers, each from
/// the pool, none twice.
pub open spec fn is_sample_of(sample: Seq<Endpoint>, pool: Seq<Endpoint>, amount: int) -> bool {
    &&& sample.len() == if pool.len() <= amount {
        pool.len() as int
    } else {
        amount
    }
    &&& forall|i: int| 0 <= i < sample.len() ==> pool.contains(#[trigger] sample[i])
    &&& forall|i: int, j: int|
        0 <= i < j < sample.len() ==> #[trigger] sample[i] != #[trigger] sample[j]
}

/// Calls `rand::seq::IteratorRandom::choose_multiple` on the places
/// `0..pool.len()` with the thread's generator `rand::rng()`. Which places
/// come back is left to chance; the contract states what the reservoir
/// sampling in that function gives whatever the generator does: `amount`
/// places, or all of them if there are fewer, each a place of the pool, none
/// twice.
#[verifier::external_body]
fn choose_places(pool: &[PeerAddress], amount: usize) -> (places: Vec<usize>)
    requires
        amount <= 0xFFFF,
    ensures
        places@.len() == if pool@.len() <= amount {
            pool@.len() as int
        } else {
            amount as int
        },
        forall|i: int| 0 <= i < places@.len() ==> #[trigger] places@[i] < pool@.len(),
        forall|i: int, j: int|
            0 <= i < j < places@.len() ==> #[trigger] places@[i] != #[trigger] places@[j],
{
    (0..pool.len()).choose_multiple(&mut rand::rng(), amount)
}

/// Draws the peers to hand out: up to ten of the reachable peers, chosen at
/// random without replacement.
pub fn sample_reachable(db: &PeerDatabase) -> (sample: Vec<PeerAddress>)
    ensures
        is_sample_of(sample.deep_view(), reachable_addresses(db@), MAX_PEERS as int),
{
    let pool: Vec<PeerAddress> = db.reachable();
    let places: Vec<usize> = choose_places(pool.as_slice(), MAX_PEERS);
    let ghost all = pool.deep_view();
    let n: usize = places.len();
    let mut sample: Vec<PeerAddress> = Vec::new();
    let mut i: usize = 0;
    while i < n
        invariant
            i <= n,
            n == places@.len(),
            all == pool.deep_view(),
            forall|k: int| 0 <= k < places@.len() ==> #[trigger] places@[k] < pool@.len(),
            sample@.len() == i,
            forall|k: int| 0 <= k < i ==> (#[trigger] sample@[k])@ == all[places@[k] as int],
        decreases n - i,
    {
        sample.push(pool[places[i]]);
        i += 1;
    }
    proof {
        let drawn = sample.deep_view();
        assert forall|k: int| 0 <= k < drawn.len() implies all.contains(#[trigger] drawn[k]) by {
            assert(drawn[k] == sample@[k]@);
            assert(all[places@[k] as int] == drawn[k]);
        }
        assert forall|a: int, b: int| 0 <= a < b < drawn.len() implies #[trigger] drawn[a]
            != #[trigger] drawn[b] by {
            assert(drawn[a] == sample@[a]@);
            assert(drawn[b] == sample@[b]@);
            let pa = places@[a] as int;
            let pb = places@[b] as int;
            assert(pa != pb);
            assert(all[pa] == pool@[pa]@);
            assert(all[pb] == pool@[pb]@);
            if pa < pb {
                assert(pool@[pa]@ != pool@[pb]@);
            } else {
                assert(pool@[pb]@ != pool@[pa]@);
            }
        }
    }
    sample
}

/// What the responder does with a request.
#[derive(Debug)]
pub enum DnsReply {
    /// Send `response`, which hands out `peers` peers.
    Answer { response: Vec<u8>, peers: usize },
    /// Send `response`, which says "not implemented".
    NotImplemented { response: Vec<u8> },
    /// Send nothing: the request cannot be read.
    Malformed,
}

/// What the responder does with a request, as a mathematical value.
pub ghost enum DnsOutcome {
    Answer { response: Seq<u8>, peers: nat },
    NotImplemented { response: Seq<u8> },
    Malformed,
}

impl View for DnsReply {
    type V = DnsOutcome;

    open spec fn view(&self) -> DnsOutcome {
        match self {
            DnsReply::Answer { response, peers } => DnsOutcome::Answer {
                response: response@,
                peers: *peers as nat,
            },
            DnsReply::NotImplemented { response } => DnsOutcome::NotImplemented {
                response: response@,
            },
            DnsReply::Malformed => DnsOutcome::Malformed,
        }
    }
}

/// Whether a request is served: it can be read, asks for an A record of
/// class IN, and names exactly the configured domain.
pub open spec fn is_seed_query(req: Seq<u8>, domain: Seq<char>) -> bool {
    parsed_query(req) matches Some(q) && q.is_a_query && q.qname == domain
}

/// What the responder does with a request, given the peers drawn for it: a
/// request that cannot be read is dropped; one that is served is answered
/// with the peers; any other is answered with "not implemented".
pub open spec fn answered(req: Seq<u8>, domain: Seq<char>, sample: Seq<Endpoint>) -> DnsOutcome {
    match parsed_query(req) {
        None => DnsOutcome::Malformed,
        Some(q) => if q.is_a_query && q.qname == domain {
            DnsOutcome::Answer {
                response: seed_response(req, q.txid, sample),
                peers: sample.len(),
            }
        } else {
            DnsOutcome::NotImplemented { response: notimpl_response(req, q.txid) }
        },
    }
}

/// Decides what to do with a request, given the peers drawn for it.
pub fn answer_query(req: &[u8], domain: &str, sample: &[PeerAddress]) -> (reply: DnsReply)
    requires
        sample@.len() <= 0xFFFF,
    ensures
        reply@ == answered(req@, domain@, sample.deep_view()),
{
    match parse_dns_query(req) {
        None => DnsReply::Malformed,
        Some((txid, is_a_query, qname)) => {
            if is_a_query && str_eq(qname.as_str(), domain) {
                DnsReply::Answer {
                    response: build_dns_response(req, txid, sample),
                    peers: sample.len(),
                }
            } else {
                DnsReply::NotImplemented { response: build_dns_notimpl(req, txid) }
            }
        },
    }
}

/// Whether a request is served.
pub fn serves(req: &[u8], domain: &str) -> (served: bool)
    ensures
        served == is_seed_query(req@, domain@),
{
    match parse_dns_query(req) {
        None => false,
        Some((_, is_a_query, qname)) => is_a_query && str_eq(qname.as_str(), domain),
    }
}

/// Answers one request from a snapshot of the peer database.
///
/// A request for the configured domain is answered with up to ten of the
/// reachable peers, drawn at random, none twice. Any other request that can
/// be read gets "not implemented"; one that cannot be read gets nothing.
pub fn respond_to_query(req: &[u8], domain: &str, db: &PeerDatabase) -> (reply: DnsReply)
    ensures
        is_seed_query(req@, domain@) ==> exists|sample: Seq<Endpoint>|
            is_sample_of(sample, reachable_addresses(db@), MAX_PEERS as int) && reply@
                == #[trigger] answered(req@, domain@, sample),
        !is_seed_query(req@, domain@) ==> reply@ == answered(req@, domain@, Seq::empty()),
{
    if serves(req, domain) {
        let sample: Vec<PeerAddress> = sample_reachable(db);
        let drawn: &[PeerAddress] = sample.as_slice();
        assert(drawn.deep_view() =~= sample.deep_view());
        answer_query(req, domain, drawn)
    } else {
        let none: Vec<PeerAddress> = Vec::new();
        let drawn: &[PeerAddress] = none.as_slice();
        assert(drawn.deep_view() =~= Seq::<Endpoint>::empty());
        answer_query(req, domain, drawn)
    }
}

} // verus!
