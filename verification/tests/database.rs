use bitcoin_client::p2p::address::PeerAddress;
use bitcoin_client::p2p::database::{PeerDatabase, PeerInfo, PeerStatus};
use bitcoin_client::p2p::multhread::{
    apply_command, apply_commands, crawl_peer, crawl_targets, DbCommand, LiveCrawlSet,
    ProbeOutcome, TimedCommand,
};
use bitcoin_client::p2p::frame::encode_message;
use bitcoin_client::p2p::log::{Event, LogLevel};

fn a(n: u8) -> PeerAddress {
    PeerAddress::v4([10, 0, 0, n], 8333)
}

#[test]
fn first_registration_creates_a_record() {
    let mut db = PeerDatabase::new();
    assert_eq!(db.len(), 0);
    db.register_peer(a(1), None, 100);
    assert_eq!(db.len(), 1);
    assert_eq!(
        db.get(&a(1)),
        Some(PeerInfo {
            address: a(1),
            last_seen: Some(100),
            last_connected: None,
            status: PeerStatus::NeverTried,
            services: None,
        })
    );
    assert_eq!(db.get(&a(2)), None);
}

#[test]
fn registering_again_refreshes_and_keeps_services() {
    let mut db = PeerDatabase::new();
    db.register_peer(a(1), Some(9), 100);
    db.update_status(a(1), PeerStatus::Banned, 150);
    db.register_peer(a(1), None, 200);
    let record = db.get(&a(1)).unwrap();
    assert_eq!(record.last_seen, Some(200));
    assert_eq!(record.services, Some(9));
    assert_eq!(record.status, PeerStatus::Banned);
    db.register_peer(a(1), Some(1033), 300);
    assert_eq!(db.get(&a(1)).unwrap().services, Some(1033));
    assert_eq!(db.len(), 1);
}

#[test]
fn status_changes_stamp_connections_only() {
    let mut db = PeerDatabase::new();
    db.register_peer(a(1), None, 100);
    db.update_status(a(1), PeerStatus::Unreachable, 110);
    let record = db.get(&a(1)).unwrap();
    assert_eq!(record.status, PeerStatus::Unreachable);
    assert_eq!(record.last_connected, None);
    assert_eq!(record.last_seen, Some(100));
    db.update_status(a(1), PeerStatus::ConnectedRecently, 120);
    let record = db.get(&a(1)).unwrap();
    assert_eq!(record.status, PeerStatus::ConnectedRecently);
    assert_eq!(record.last_connected, Some(120));
    assert_eq!(record.last_seen, Some(120));
    db.update_status(a(1), PeerStatus::Banned, 130);
    let record = db.get(&a(1)).unwrap();
    assert_eq!(record.last_connected, Some(120));
    assert_eq!(record.last_seen, Some(120));
}

fn stamps_in_order(db: &PeerDatabase) -> bool {
    db.records().iter().all(|r| match (r.last_connected, r.last_seen) {
        (Some(connected), Some(seen)) => connected <= seen,
        _ => true,
    })
}

#[test]
fn a_connection_keeps_the_stamps_in_order() {
    let mut db = PeerDatabase::new();
    db.register_peer(a(1), None, 100);
    db.register_peer(a(2), None, 105);
    assert!(stamps_in_order(&db));
    db.update_status(a(1), PeerStatus::ConnectedRecently, 120);
    assert!(stamps_in_order(&db));
    let record = db.get(&a(1)).unwrap();
    assert_eq!((record.last_connected, record.last_seen), (Some(120), Some(120)));
    db.update_status(a(2), PeerStatus::Unreachable, 125);
    db.register_peer(a(1), None, 130);
    db.update_status(a(2), PeerStatus::ConnectedRecently, 140);
    db.update_status(a(1), PeerStatus::Banned, 150);
    assert!(stamps_in_order(&db));
    let record = db.get(&a(1)).unwrap();
    assert_eq!((record.last_connected, record.last_seen), (Some(120), Some(130)));
    let record = db.get(&a(2)).unwrap();
    assert_eq!((record.last_connected, record.last_seen), (Some(140), Some(140)));
    let commands = [
        TimedCommand { command: DbCommand::RegisterPeer(a(3), None), at: 160 },
        TimedCommand {
            command: DbCommand::UpdatePeerStatus(a(3), PeerStatus::ConnectedRecently),
            at: 170,
        },
        TimedCommand { command: DbCommand::RegisterPeer(a(3), Some(1)), at: 170 },
    ];
    apply_commands(&mut db, &commands);
    assert!(stamps_in_order(&db));
}

#[test]
fn status_of_an_unknown_peer_is_not_recorded() {
    let mut db = PeerDatabase::new();
    db.update_status(a(1), PeerStatus::ConnectedRecently, 5);
    assert_eq!(db.len(), 0);
    assert_eq!(db.get(&a(1)), None);
}

#[test]
fn records_keep_the_order_of_first_registration() {
    let mut db = PeerDatabase::new();
    db.register_all(&[a(3), a(1), a(2), a(1), a(3)], 7);
    assert_eq!(db.addresses(), vec![a(3), a(1), a(2)]);
    assert_eq!(db.records().len(), 3);
    let copy = db.snapshot();
    db.register_peer(a(4), None, 8);
    assert_eq!(copy.len(), 3);
    assert_eq!(db.len(), 4);
}

#[test]
fn reachable_peers_are_those_connected_recently() {
    let mut db = PeerDatabase::default();
    db.register_all(&[a(1), a(2), a(3), a(4)], 7);
    db.update_status(a(2), PeerStatus::ConnectedRecently, 8);
    db.update_status(a(3), PeerStatus::Unreachable, 8);
    db.update_status(a(4), PeerStatus::ConnectedRecently, 8);
    assert_eq!(db.reachable(), vec![a(2), a(4)]);
}

#[test]
fn stored_records_replace_by_endpoint() {
    let mut db = PeerDatabase::new();
    let record = PeerInfo {
        address: a(1),
        last_seen: None,
        last_connected: Some(3),
        status: PeerStatus::Banned,
        services: Some(1),
    };
    db.insert_record(record);
    db.insert_record(PeerInfo { status: PeerStatus::Unreachable, ..record });
    assert_eq!(db.len(), 1);
    assert_eq!(db.get(&a(1)).unwrap().status, PeerStatus::Unreachable);
}

#[test]
fn commands_apply_in_the_order_received() {
    let commands = [
        TimedCommand { command: DbCommand::RegisterPeer(a(1), Some(1)), at: 10 },
        TimedCommand {
            command: DbCommand::UpdatePeerStatus(a(1), PeerStatus::ConnectedRecently),
            at: 20,
        },
        TimedCommand { command: DbCommand::UpdatePeerStatus(a(2), PeerStatus::Banned), at: 30 },
        TimedCommand { command: DbCommand::RegisterPeer(a(2), None), at: 40 },
        TimedCommand {
            command: DbCommand::UpdatePeerStatus(a(1), PeerStatus::Unreachable),
            at: 50,
        },
    ];
    let mut all_at_once = PeerDatabase::new();
    apply_commands(&mut all_at_once, &commands);
    let mut one_by_one = PeerDatabase::new();
    for c in commands.iter() {
        apply_command(&mut one_by_one, &c.command, c.at);
    }
    assert_eq!(all_at_once.records(), one_by_one.records());
    assert_eq!(
        all_at_once.records(),
        &vec![
            PeerInfo {
                address: a(1),
                last_seen: Some(20),
                last_connected: Some(20),
                status: PeerStatus::Unreachable,
                services: Some(1),
            },
            PeerInfo {
                address: a(2),
                last_seen: Some(40),
                last_connected: None,
                status: PeerStatus::NeverTried,
                services: None,
            },
        ]
    );
}

#[test]
fn a_crawl_probes_four_peers_at_most() {
    let six = [a(1), a(2), a(3), a(4), a(5), a(6)];
    assert_eq!(crawl_targets(&six), vec![a(1), a(2), a(3), a(4)]);
    assert_eq!(crawl_targets(&six[..4]), vec![a(1), a(2), a(3), a(4)]);
    assert_eq!(crawl_targets(&six[..2]), vec![a(1), a(2)]);
    assert!(crawl_targets(&[]).is_empty());
}

#[test]
fn a_probe_that_connects() {
    let plan = crawl_peer(a(1), ProbeOutcome::Connected);
    assert_eq!(plan.command, DbCommand::UpdatePeerStatus(a(1), PeerStatus::ConnectedRecently));
    assert_eq!(plan.event.level, LogLevel::Info);
    assert!(matches!(plan.event.event, Event::Connected(addr) if addr == a(1)));
    assert!(plan.reachable);
    assert_eq!(plan.send, Some(encode_message("getaddr", &[])));
    let mut live = LiveCrawlSet::new();
    live.record(a(1), &plan);
    live.record(a(1), &plan);
    assert!(live.contains(&a(1)));
    assert_eq!(live.endpoints(), &vec![a(1)]);
}

#[test]
fn a_probe_that_fails() {
    let plan = crawl_peer(a(2), ProbeOutcome::Failed("refused".to_string()));
    assert_eq!(plan.command, DbCommand::UpdatePeerStatus(a(2), PeerStatus::Unreachable));
    assert_eq!(plan.event.level, LogLevel::Warn);
    assert!(matches!(
        &plan.event.event,
        Event::FailedConnection(addr, reason) if *addr == a(2) && reason == "refused"
    ));
    assert!(!plan.reachable);
    assert_eq!(plan.send, None);
    let mut live = LiveCrawlSet::new();
    live.record(a(2), &plan);
    assert!(!live.contains(&a(2)));
    assert!(live.endpoints().is_empty());
}
