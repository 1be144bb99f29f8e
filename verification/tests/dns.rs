use bitcoin_client::p2p::address::PeerAddress;
use bitcoin_client::p2p::database::{PeerDatabase, PeerStatus};
use bitcoin_client::p2p::dns_server::{
    answer_query, build_dns_notimpl, build_dns_response, parse_dns_query, respond_to_query,
    sample_reachable, serves, DnsReply, DNS_PORT, MAX_PEERS,
};

const DOMAIN: &str = "seed.example.com.";

fn query(txid: u16, name: &str, qtype: u16, qclass: u16) -> Vec<u8> {
    let mut req = Vec::new();
    req.extend_from_slice(&txid.to_be_bytes());
    req.extend_from_slice(&[0x01, 0x00]);
    req.extend_from_slice(&[0x00, 0x01, 0x00, 0x00, 0x00, 0x00, 0x00, 0x00]);
    req.extend(question(name, qtype, qclass));
    req
}

fn question(name: &str, qtype: u16, qclass: u16) -> Vec<u8> {
    let mut q = Vec::new();
    for label in name.split('.').filter(|l| !l.is_empty()) {
        q.push(label.len() as u8);
        q.extend_from_slice(label.as_bytes());
    }
    q.push(0);
    q.extend_from_slice(&qtype.to_be_bytes());
    q.extend_from_slice(&qclass.to_be_bytes());
    q
}

fn database(reachable: u8, others: u8) -> PeerDatabase {
    let mut db = PeerDatabase::new();
    for n in 0..reachable {
        let addr = PeerAddress::v4([10, 0, 0, n], 8333);
        db.register_peer(addr, None, 1);
        db.update_status(addr, PeerStatus::ConnectedRecently, 2);
    }
    for n in 0..others {
        let addr = PeerAddress::v4([172, 16, 0, n], 8333);
        db.register_peer(addr, None, 1);
        if n % 2 == 0 {
            db.update_status(addr, PeerStatus::Unreachable, 2);
        }
    }
    db
}

#[test]
fn the_responder_listens_on_1053_and_hands_out_ten() {
    assert_eq!(DNS_PORT, 1053);
    assert_eq!(MAX_PEERS, 10);
}

#[test]
fn query_is_read() {
    let req = query(0xBEEF, "seed.example.com", 1, 1);
    assert_eq!(parse_dns_query(&req), Some((0xBEEF, true, "seed.example.com.".to_string())));
    let req = query(7, "foo.example.com", 28, 1);
    assert_eq!(parse_dns_query(&req), Some((7, false, "foo.example.com.".to_string())));
    let req = query(7, "foo.example.com", 1, 3);
    assert_eq!(parse_dns_query(&req), Some((7, false, "foo.example.com.".to_string())));
    let req = query(7, "", 1, 1);
    assert_eq!(parse_dns_query(&req), Some((7, true, String::new())));
}

#[test]
fn label_that_is_not_utf8_is_read_with_replacements() {
    let mut req = query(1, "ab", 1, 1);
    req[14] = 0xFF;
    assert_eq!(parse_dns_query(&req), Some((1, true, "a\u{FFFD}.".to_string())));
}

#[test]
fn malformed_queries_are_not_read() {
    let good = query(1, "seed.example.com", 1, 1);
    assert!(parse_dns_query(&good[..11]).is_none());
    assert!(parse_dns_query(&good[..12]).is_none());
    for keep in 12..good.len() {
        assert!(parse_dns_query(&good[..keep]).is_none());
    }
    let mut response = good.clone();
    response[2] |= 0x80;
    assert!(parse_dns_query(&response).is_none());
    let mut no_question = good.clone();
    no_question[5] = 0;
    assert!(parse_dns_query(&no_question).is_none());
    let mut long_label = good.clone();
    long_label[12] = 200;
    assert!(parse_dns_query(&long_label).is_none());
    assert!(parse_dns_query(&[]).is_none());
}

#[test]
fn seed_hit() {
    let db = database(12, 5);
    let before = db.snapshot();
    let req = query(0x1234, "seed.example.com", 1, 1);
    let reply = respond_to_query(&req, DOMAIN, &db);
    let (response, peers) = match reply {
        DnsReply::Answer { response, peers } => (response, peers),
        other => panic!("not an answer: {:?}", other),
    };
    assert_eq!(peers, 10);
    assert_eq!(&response[0..2], &[0x12, 0x34]);
    assert_eq!(&response[2..4], &[0x81, 0x80]);
    assert_eq!(&response[4..6], &[0x00, 0x01]);
    assert_eq!(&response[6..8], &[0x00, 0x0A]);
    assert_eq!(&response[8..12], &[0, 0, 0, 0]);
    let asked = question("seed.example.com", 1, 1);
    assert_eq!(&response[12..12 + asked.len()], &asked[..]);
    let answers = &response[12 + asked.len()..];
    assert_eq!(answers.len(), 160);
    let mut seen: Vec<[u8; 4]> = Vec::new();
    for record in answers.chunks(16) {
        assert_eq!(&record[..12], &[0xC0, 0x0C, 0, 1, 0, 1, 0, 0, 0, 60, 0, 4]);
        let ip = [record[12], record[13], record[14], record[15]];
        assert_eq!(&ip[..3], &[10, 0, 0]);
        assert!(ip[3] < 12);
        assert!(!seen.contains(&ip));
        seen.push(ip);
    }
    assert_eq!(db.records(), before.records());
}

#[test]
fn seed_hit_with_few_peers() {
    for k in [0u8, 1, 9, 10, 11] {
        let db = database(k, 3);
        let req = query(1, "seed.example.com", 1, 1);
        match respond_to_query(&req, DOMAIN, &db) {
            DnsReply::Answer { response, peers } => {
                let want = std::cmp::min(k as usize, 10);
                assert_eq!(peers, want);
                assert_eq!(response[7] as usize, want);
                assert_eq!(response.len(), 12 + 22 + 16 * want);
            }
            other => panic!("not an answer: {:?}", other),
        }
    }
}

#[test]
fn samples_are_drawn_without_replacement() {
    let db = database(30, 30);
    let pool = db.reachable();
    let mut drawn_at_all: Vec<PeerAddress> = Vec::new();
    for _ in 0..200 {
        let sample = sample_reachable(&db);
        assert_eq!(sample.len(), 10);
        for (i, addr) in sample.iter().enumerate() {
            assert!(pool.contains(addr));
            assert!(!sample[..i].contains(addr));
            if !drawn_at_all.contains(addr) {
                drawn_at_all.push(*addr);
            }
        }
    }
    assert_eq!(drawn_at_all.len(), 30);
}

#[test]
fn seed_miss() {
    let db = database(12, 0);
    let before = db.snapshot();
    let req = query(0xABCD, "foo.example.com", 1, 1);
    let reply = respond_to_query(&req, DOMAIN, &db);
    let response = match reply {
        DnsReply::NotImplemented { response } => response,
        other => panic!("not a refusal: {:?}", other),
    };
    let mut expected = vec![0xAB, 0xCD, 0x81, 0x84, 0, 1, 0, 0, 0, 0, 0, 0];
    expected.extend(question("foo.example.com", 1, 1));
    assert_eq!(response, expected);
    assert_eq!(response[3] & 0x0F, 4);
    assert_eq!(db.records(), before.records());
}

#[test]
fn other_types_and_classes_are_not_served() {
    let db = database(3, 0);
    for (qtype, qclass) in [(28u16, 1u16), (1, 3), (255, 255), (2, 1)] {
        let req = query(5, "seed.example.com", qtype, qclass);
        assert!(!serves(&req, DOMAIN));
        match respond_to_query(&req, DOMAIN, &db) {
            DnsReply::NotImplemented { response } => {
                assert_eq!(&response[..12], &[0, 5, 0x81, 0x84, 0, 1, 0, 0, 0, 0, 0, 0]);
                assert_eq!(&response[12..], &question("seed.example.com", qtype, qclass)[..]);
            }
            other => panic!("not a refusal: {:?}", other),
        }
    }
}

#[test]
fn the_name_must_match_exactly() {
    let req = query(5, "seed.example.com", 1, 1);
    assert!(serves(&req, "seed.example.com."));
    assert!(!serves(&req, "seed.example.com"));
    assert!(!serves(&req, "Seed.example.com."));
    assert!(!serves(&query(5, "seed.example", 1, 1), DOMAIN));
    assert!(!serves(&query(5, "x.seed.example.com", 1, 1), DOMAIN));
}

#[test]
fn malformed_queries_get_no_reply() {
    let db = database(3, 0);
    let req = query(5, "seed.example.com", 1, 1);
    assert!(matches!(respond_to_query(&req[..20], DOMAIN, &db), DnsReply::Malformed));
    assert!(matches!(answer_query(&[], DOMAIN, &[]), DnsReply::Malformed));
}

#[test]
fn answers_for_given_peers_are_exact() {
    let req = query(0x0102, "a.b", 1, 1);
    let peers = [PeerAddress::v4([1, 2, 3, 4], 8333), PeerAddress::v6([7u8; 16], 8333)];
    let response = build_dns_response(&req, 0x0102, &peers);
    let mut expected = vec![0x01, 0x02, 0x81, 0x80, 0, 1, 0, 2, 0, 0, 0, 0];
    expected.extend_from_slice(&[1, b'a', 1, b'b', 0, 0, 1, 0, 1]);
    expected.extend_from_slice(&[0xC0, 0x0C, 0, 1, 0, 1, 0, 0, 0, 0x3C, 0, 4, 1, 2, 3, 4]);
    expected.extend_from_slice(&[0xC0, 0x0C, 0, 1, 0, 1, 0, 0, 0, 0x3C, 0, 4, 0, 0, 0, 0]);
    assert_eq!(response, expected);
    match answer_query(&req, "a.b.", &peers) {
        DnsReply::Answer { response, peers } => {
            assert_eq!(response, expected);
            assert_eq!(peers, 2);
        }
        other => panic!("not an answer: {:?}", other),
    }
    let mut trailing = req.clone();
    trailing.extend_from_slice(&[9, 9, 9]);
    assert_eq!(build_dns_response(&trailing, 0x0102, &peers), expected);
    let refusal = build_dns_notimpl(&trailing, 0x0102);
    assert_eq!(&refusal[12..], &[1, b'a', 1, b'b', 0, 0, 1, 0, 1]);
}
