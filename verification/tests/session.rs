use bitcoin_client::p2p::address::PeerAddress;
use bitcoin_client::p2p::database::{PeerDatabase, PeerStatus};
use bitcoin_client::p2p::frame::{encode_message, FrameError};
use bitcoin_client::p2p::inv_policy::{select_requests, SeenInventory};
use bitcoin_client::p2p::inventory::{InventoryItem, InventoryType};
use bitcoin_client::p2p::log::{Event, LogLevel};
use bitcoin_client::p2p::p2p_client::{
    classify, connection_alive, first_attempt, AttemptResult, BitcoinClient, ConnectNext,
    InboundKind, OutboundKind, OutboundMessage, PeekOutcome, SessionEvent,
};
use bitcoin_client::p2p::utils::{build_getdata_payload, build_version_payload};

fn peer() -> PeerAddress {
    PeerAddress::v4([1, 2, 3, 4], 8333)
}

fn connected() -> BitcoinClient {
    let mut client = BitcoinClient::new(PeerDatabase::new(), 500_000);
    client.connect(peer());
    client
}

fn ready() -> BitcoinClient {
    let mut client = connected();
    client.message_loop_step(frame("version", vec![0x7F, 0x11, 0x01, 0x00]), 1);
    client.message_loop_step(frame("verack", vec![]), 1);
    assert!(client.is_ready());
    client
}

fn frame(command: &str, payload: Vec<u8>) -> SessionEvent {
    SessionEvent::Frame { command: command.to_string(), payload }
}

fn kinds(outbound: &[OutboundMessage]) -> Vec<OutboundKind> {
    outbound.iter().map(|m| m.kind).collect()
}

fn item(kind: InventoryType, n: u8) -> InventoryItem {
    let mut hash = [0u8; 32];
    hash[0] = n;
    hash[30] = (kind.to_u32() >> 24) as u8;
    hash[31] = kind.to_u32() as u8;
    InventoryItem { inv_type: kind, hash }
}

fn addr_entry(a: u8, b: u8, c: u8, d: u8, port: u16) -> Vec<u8> {
    let mut out = vec![0u8; 12];
    out.extend_from_slice(&[0, 0, 0, 0, 0, 0, 0, 0, 0, 0, 0xFF, 0xFF, a, b, c, d]);
    out.extend_from_slice(&port.to_be_bytes());
    out
}

#[test]
fn happy_handshake() {
    let mut client = connected();
    let version = client.start_handshake(70015, 1_700_000_000);
    assert_eq!(version.kind, OutboundKind::Version);
    assert_eq!(version.payload, build_version_payload(peer(), 70015, 1_700_000_000));
    assert_eq!(&version.to_bytes()[4..16], b"version\0\0\0\0\0");

    let mut inbound = vec![0x7F, 0x11, 0x01, 0x00];
    inbound.extend_from_slice(&[0u8; 82]);
    let step = client.message_loop_step(frame("version", inbound), 1);
    assert_eq!(kinds(&step.outbound), vec![OutboundKind::Verack]);
    assert!(step.outbound[0].payload.is_empty());
    assert!(client.version_received());
    assert!(!client.handshake_complete());
    assert!(!step.stop);
    assert_eq!(step.sleep_ms, 0);

    let step = client.message_loop_step(frame("verack", vec![]), 1);
    assert_eq!(kinds(&step.outbound), vec![OutboundKind::GetAddr]);
    assert!(step.outbound[0].payload.is_empty());
    assert!(client.verack_received());
    assert!(client.handshake_complete());
    assert!(client.getaddr_sent());
    assert!(client.is_ready());
    assert_eq!(step.sleep_ms, 500);
    assert_eq!(step.outbound[0].to_bytes(), encode_message("getaddr", &[]));
}

#[test]
fn handshake_in_the_other_order() {
    let mut client = connected();
    let step = client.message_loop_step(frame("verack", vec![]), 1);
    assert!(step.outbound.is_empty());
    assert!(!client.handshake_complete());
    let step = client.message_loop_step(frame("version", vec![]), 1);
    assert_eq!(kinds(&step.outbound), vec![OutboundKind::Verack, OutboundKind::GetAddr]);
    assert!(client.is_ready());
}

#[test]
fn duplicate_handshake_messages_keep_the_session_ready() {
    let mut client = ready();
    let step = client.message_loop_step(frame("version", vec![1, 2, 3, 4]), 2);
    assert_eq!(kinds(&step.outbound), vec![OutboundKind::Verack]);
    assert!(client.is_ready());
    let step = client.message_loop_step(frame("verack", vec![]), 2);
    assert!(step.outbound.is_empty());
    assert!(client.is_ready());
    assert!(!step.stop);
}

#[test]
fn ping_is_echoed() {
    let mut client = ready();
    let step = client.message_loop_step(frame("ping", vec![1, 2, 3, 4, 5, 6, 7, 8]), 2);
    assert_eq!(kinds(&step.outbound), vec![OutboundKind::Pong]);
    assert_eq!(step.outbound[0].payload, vec![1, 2, 3, 4, 5, 6, 7, 8]);
    assert_eq!(
        step.outbound[0].to_bytes(),
        encode_message("pong", &[1, 2, 3, 4, 5, 6, 7, 8])
    );
    assert!(client.is_ready());
    assert!(!step.persist);
}

#[test]
fn short_ping_is_not_answered() {
    let mut client = ready();
    let reaction = client.handle_message("ping", &[1, 2, 3, 4, 5, 6, 7], 2);
    assert!(reaction.reply.is_none());
    let reaction = client.handle_message("ping", &[1, 2, 3, 4, 5, 6, 7, 8, 9], 2);
    assert_eq!(reaction.reply.unwrap().payload.len(), 9);
}

#[test]
fn addr_gossip_fills_the_database() {
    let mut client = ready();
    let mut payload = vec![2u8];
    payload.extend(addr_entry(1, 2, 3, 4, 8333));
    payload.extend(addr_entry(5, 6, 7, 8, 8333));
    let step = client.message_loop_step(frame("addr", payload), 77);
    assert!(step.outbound.is_empty());
    assert!(step.persist);
    let db = client.peer_db();
    assert_eq!(db.len(), 2);
    for addr in [PeerAddress::v4([1, 2, 3, 4], 8333), PeerAddress::v4([5, 6, 7, 8], 8333)] {
        let record = db.get(&addr).unwrap();
        assert_eq!(record.status, PeerStatus::NeverTried);
        assert_eq!(record.last_seen, Some(77));
        assert_eq!(record.services, None);
        assert_eq!(record.last_connected, None);
    }
}

#[test]
fn inv_requests_ten_transactions_and_three_blocks() {
    let mut client = ready();
    let mut items = Vec::new();
    for n in 0..15 {
        items.push(item(InventoryType::Transaction, n));
    }
    for n in 0..5 {
        items.push(item(InventoryType::Block, n));
    }
    let payload = build_getdata_payload(&items);
    let step = client.message_loop_step(frame("inv", payload.clone()), 3);
    assert_eq!(kinds(&step.outbound), vec![OutboundKind::GetData]);
    let mut expected: Vec<InventoryItem> = items[..10].to_vec();
    expected.extend_from_slice(&items[15..18]);
    assert_eq!(step.outbound[0].payload, build_getdata_payload(&expected));
    for it in items.iter() {
        assert!(client.has_seen(&it.hash));
    }
    let step = client.message_loop_step(frame("inv", payload), 3);
    assert!(step.outbound.is_empty());
}

#[test]
fn inv_policy_by_kind() {
    let mut seen = SeenInventory::new();
    let mut items = Vec::new();
    for n in 0..4 {
        items.push(item(InventoryType::WitnessBlock, n));
    }
    for n in 0..6 {
        items.push(item(InventoryType::WitnessTransaction, n));
    }
    for n in 0..6 {
        items.push(item(InventoryType::Transaction, n));
    }
    for n in 0..20 {
        items.push(item(InventoryType::CompactBlock, n));
    }
    items.push(item(InventoryType::FilteredBlock, 0));
    items.push(item(InventoryType::Error, 0));
    items.push(item(InventoryType::FilteredWitnessBlock, 0));
    items.push(item(InventoryType::WitnessBlock, 1));
    let batch = select_requests(&mut seen, &items);
    let got: Vec<[u8; 32]> = batch.iter().map(|b| b.hash).collect();
    let mut want: Vec<[u8; 32]> = Vec::new();
    want.extend(items[0..3].iter().map(|b| b.hash));
    want.extend(items[4..10].iter().map(|b| b.hash));
    want.extend(items[10..14].iter().map(|b| b.hash));
    want.extend(items[16..36].iter().map(|b| b.hash));
    assert_eq!(got, want);
    assert_eq!(batch.len(), 10 + 3 + 20);
    for it in items.iter() {
        assert!(seen.contains(&it.hash));
    }
    assert!(select_requests(&mut seen, &items).is_empty());
}

#[test]
fn inv_counts_start_again_with_each_payload() {
    let mut seen = SeenInventory::new();
    let first: Vec<InventoryItem> = (0..12).map(|n| item(InventoryType::Transaction, n)).collect();
    let second: Vec<InventoryItem> =
        (12..24).map(|n| item(InventoryType::Transaction, n)).collect();
    assert_eq!(select_requests(&mut seen, &first).len(), 10);
    assert_eq!(select_requests(&mut seen, &second).len(), 10);
    assert!(!seen.contains(&[9u8; 32]));
}

#[test]
fn empty_inv_requests_nothing() {
    let mut client = ready();
    assert!(client.handle_inv_message(&[]).is_none());
    assert!(client.handle_inv_message(&[0]).is_none());
    assert!(client.handle_inv_message(&[3, 1, 2]).is_none());
}

#[test]
fn other_messages_change_nothing() {
    let mut client = ready();
    let others = ["pong", "alert", "sendheaders", "sendcmpct", "feefilter", "block", "", "VERSION"];
    for command in others {
        let reaction = client.handle_message(command, &[1, 2, 3, 4, 5, 6, 7, 8], 9);
        assert!(reaction.reply.is_none());
        assert!(!reaction.persist);
    }
    assert!(client.is_ready());
    assert_eq!(client.peer_db().len(), 0);
}

#[test]
fn commands_are_told_apart() {
    assert_eq!(classify("version"), InboundKind::Version);
    assert_eq!(classify("verack"), InboundKind::Verack);
    assert_eq!(classify("ping"), InboundKind::Ping);
    assert_eq!(classify("pong"), InboundKind::Pong);
    assert_eq!(classify("inv"), InboundKind::Inv);
    assert_eq!(classify("addr"), InboundKind::Addr);
    assert_eq!(classify("alert"), InboundKind::Alert);
    assert_eq!(classify("sendheaders"), InboundKind::SendHeaders);
    assert_eq!(classify("sendcmpct"), InboundKind::SendCompact);
    assert_eq!(classify("feefilter"), InboundKind::FeeFilter);
    assert_eq!(classify("getheaders"), InboundKind::Unknown);
    assert_eq!(classify("Ping"), InboundKind::Unknown);
    assert_eq!(classify("ping "), InboundKind::Unknown);
}

#[test]
fn a_rejected_frame_leaves_the_session_as_it_was() {
    let mut client = connected();
    let mut bytes = encode_message("version", &[0x7F, 0x11, 0x01, 0x00]);
    bytes[0] ^= 1;
    assert_eq!(client.receive(&bytes, 1).err(), Some(FrameError::InvalidMagic));
    bytes[0] ^= 1;
    bytes[21] ^= 1;
    assert_eq!(client.receive(&bytes, 1).err(), Some(FrameError::InvalidChecksum));
    bytes[21] ^= 1;
    assert_eq!(
        client.receive(&bytes[..bytes.len() - 1], 1).err(),
        Some(FrameError::TruncatedPayload)
    );
    assert_eq!(client.receive(&bytes[..10], 1).err(), Some(FrameError::TruncatedHeader));
    assert!(!client.version_received());
    assert!(!client.limit_reached());
    let step = client.receive(&bytes, 1).unwrap();
    assert_eq!(kinds(&step.outbound), vec![OutboundKind::Verack]);
    assert!(client.version_received());
}

#[test]
fn the_read_loop_paces_itself() {
    let mut client = connected();
    let step = client.message_loop_step(SessionEvent::NoData, 1);
    assert_eq!(step.sleep_ms, 100);
    assert!(!step.stop);
    assert!(step.outbound.is_empty());
    let mut client = ready();
    let step = client.message_loop_step(SessionEvent::NoData, 1);
    assert_eq!(step.sleep_ms, 600);
    let step = client.message_loop_step(frame("pong", vec![]), 1);
    assert_eq!(step.sleep_ms, 500);
}

#[test]
fn the_session_ends_when_the_connection_does() {
    let mut client = ready();
    let step = client.message_loop_step(SessionEvent::ConnectionLost, 1);
    assert!(step.stop);
    assert!(step.outbound.is_empty());
    assert_eq!(step.sleep_ms, 0);
    let step = client.message_loop_step(SessionEvent::ReadFailed, 1);
    assert!(step.stop);
    assert!(client.is_ready());
}

#[test]
fn the_session_ends_after_its_last_frame() {
    let mut client = BitcoinClient::new(PeerDatabase::new(), 2);
    client.connect(peer());
    let step = client.message_loop_step(frame("version", vec![]), 1);
    assert!(!step.stop);
    let step = client.message_loop_step(SessionEvent::NoData, 1);
    assert!(!step.stop);
    let step = client.message_loop_step(frame("verack", vec![]), 1);
    assert!(step.stop);
    assert_eq!(kinds(&step.outbound), vec![OutboundKind::GetAddr]);
    assert!(client.limit_reached());
    let step = client.message_loop_step(frame("ping", vec![0; 8]), 1);
    assert!(step.stop);
    assert!(step.outbound.is_empty());
    let mut none = BitcoinClient::new(PeerDatabase::new(), 0);
    assert!(none.limit_reached());
    assert!(none.message_loop_step(SessionEvent::NoData, 1).stop);
}

#[test]
fn soft_stop_clears_the_flags_and_is_idempotent() {
    let mut client = ready();
    let hash = [5u8; 32];
    let payload = build_getdata_payload(&[InventoryItem {
        inv_type: InventoryType::Transaction,
        hash,
    }]);
    client.handle_message("inv", &payload, 1);
    client.handle_message("addr", &{
        let mut p = vec![1u8];
        p.extend(addr_entry(9, 9, 9, 9, 1));
        p
    }, 1);
    for _ in 0..2 {
        client.soft_stop();
        assert_eq!(client.connected_addr(), None);
        assert!(!client.version_received());
        assert!(!client.verack_received());
        assert!(!client.handshake_complete());
        assert!(!client.getaddr_sent());
        assert!(!client.is_ready());
        assert!(client.has_seen(&hash));
        assert_eq!(client.peer_db().len(), 1);
    }
}

#[test]
fn liveness_probe() {
    assert!(!connection_alive(PeekOutcome::Read(0)));
    assert!(connection_alive(PeekOutcome::Read(1)));
    assert!(connection_alive(PeekOutcome::WouldBlock));
    assert!(!connection_alive(PeekOutcome::Failed));
}

#[test]
fn candidates_are_tried_in_order() {
    let candidates = [peer(), PeerAddress::v4([5, 6, 7, 8], 8333)];
    assert_eq!(first_attempt(&candidates), ConnectNext::Try(0));
    assert_eq!(first_attempt(&[]), ConnectNext::Refused);
    let mut client = BitcoinClient::new(PeerDatabase::new(), 10);
    let (event, next) =
        client.attempt_ended(&candidates, 0, AttemptResult::Failed("timed out".to_string()));
    assert_eq!(event.level, LogLevel::Warn);
    assert!(matches!(
        &event.event,
        Event::FailedConnection(addr, reason) if *addr == peer() && reason == "timed out"
    ));
    assert_eq!(next, ConnectNext::Try(1));
    assert_eq!(client.connected_addr(), None);
    let (event, next) = client.attempt_ended(&candidates, 1, AttemptResult::Connected);
    assert_eq!(event.level, LogLevel::Info);
    assert!(matches!(event.event, Event::Connected(addr) if addr == candidates[1]));
    assert_eq!(next, ConnectNext::Established);
    assert_eq!(client.connected_addr(), Some(candidates[1]));
    let mut other = BitcoinClient::new(PeerDatabase::new(), 10);
    let (_, next) = other.attempt_ended(&candidates, 1, AttemptResult::Failed("no".to_string()));
    assert_eq!(next, ConnectNext::Refused);
}

#[test]
fn one_getaddr_over_a_whole_run() {
    let orders: [&[&str]; 5] = [
        &["version", "verack", "version", "verack", "ping"],
        &["verack", "verack", "ping", "version", "version", "verack"],
        &["ping", "version", "version", "inv", "verack", "addr", "verack"],
        &["version", "version", "ping"],
        &["verack", "pong", "verack"],
    ];
    for (n, order) in orders.iter().enumerate() {
        let mut client = connected();
        let mut sent: Vec<OutboundKind> = Vec::new();
        for command in order.iter() {
            let before = client.version_received() && client.verack_received();
            let step = client.message_loop_step(frame(command, vec![0u8; 8]), 1);
            let after = client.version_received() && client.verack_received();
            let here = kinds(&step.outbound);
            if here.contains(&OutboundKind::GetAddr) {
                assert!(!before && after);
            }
            sent.extend(here);
        }
        let count = sent.iter().filter(|k| **k == OutboundKind::GetAddr).count();
        assert_eq!(count, if n < 3 { 1 } else { 0 });
        assert_eq!(client.is_ready(), n < 3);
    }
}
