use bitcoin_client::p2p::address::PeerAddress;
use bitcoin_client::p2p::inventory::{InventoryItem, InventoryType};
use bitcoin_client::p2p::utils::{
    advertised_version, build_getdata_payload, build_version_payload, encode_compact_size, parse_compact_size,
    parse_inv_message, sha256d,
};

#[test]
fn test_build_getdata_payload_and_parse_inv() {
    let item = InventoryItem {
        inv_type: InventoryType::Transaction,
        hash: [1u8; 32],
    };
    let payload = build_getdata_payload(&[item.clone()]);
    let _parsed = parse_inv_message(&payload[1..]);
    assert!(payload.len() > 32);
}

#[test]
fn test_parse_compact_size() {
    let data = [0xFD, 0x10, 0x00];
    let (val, offset) = parse_compact_size(&data);
    assert_eq!(val, 16);
    assert_eq!(offset, 3);
}

#[test]
fn test_build_version_payload_ipv4() {
    let addr = PeerAddress::v4([127, 0, 0, 1], 8333);
    let payload = build_version_payload(addr, 70015, 1_700_000_000);
    assert!(payload.len() > 0);
}

#[test]
fn test_inventory_hash_hex() {
    let mut _item = InventoryItem {
        inv_type: InventoryType::Block,
        hash: [0xAB; 32],
    };
    let hex = _item.hash_hex();
    assert_eq!(hex.len(), 64);
}

#[test]
fn test_inventory_type_from_u32() {
    assert_eq!(InventoryType::from_u32(1), InventoryType::Transaction);
    assert_eq!(InventoryType::from_u32(2), InventoryType::Block);
    assert_eq!(InventoryType::from_u32(0x40000001), InventoryType::WitnessTransaction);
    assert_eq!(InventoryType::from_u32(999999), InventoryType::Error);
}

#[test]
fn test_inventory_type_name() {
    assert_eq!(InventoryType::Transaction.name(), "TX");
    assert_eq!(InventoryType::Block.name(), "BLOCK");
    assert_eq!(InventoryType::WitnessBlock.name(), "WITNESS_BLOCK");
}

#[test]
fn test_parse_compact_size_invalid() {
    let data = [0xFD, 0x01];
    let (val, offset) = parse_compact_size(&data);
    assert_eq!(val, 0);
    assert_eq!(offset, 1);
}

#[test]
fn test_build_getdata_payload_empty() {
    let payload = build_getdata_payload(&[]);
    assert_eq!(payload, vec![0u8]);
}

#[test]
fn test_inventory_item_hash_hex_format() {
    let item = InventoryItem {
        inv_type: InventoryType::Transaction,
        hash: [0xFF; 32],
    };
    let hex = item.hash_hex();
    assert!(hex.chars().all(|c| c == 'f' || c == 'F'));
}

#[test]
fn test_parse_inv_message_invalid_payload() {
    let payload = [0x01, 0x02, 0x03];
    let items = parse_inv_message(&payload);
    assert!(items.is_empty());
}

#[test]
fn compact_size_encodings_are_exact() {
    assert_eq!(encode_compact_size(0), vec![0x00]);
    assert_eq!(encode_compact_size(0xFC), vec![0xFC]);
    assert_eq!(encode_compact_size(0xFD), vec![0xFD, 0xFD, 0x00]);
    assert_eq!(encode_compact_size(0xFFFF), vec![0xFD, 0xFF, 0xFF]);
    assert_eq!(encode_compact_size(0x1_0000), vec![0xFE, 0x00, 0x00, 0x01, 0x00]);
    assert_eq!(encode_compact_size(0xFFFF_FFFF), vec![0xFE, 0xFF, 0xFF, 0xFF, 0xFF]);
    assert_eq!(
        encode_compact_size(0x1_0000_0000),
        vec![0xFF, 0x00, 0x00, 0x00, 0x00, 0x01, 0x00, 0x00, 0x00]
    );
    assert_eq!(
        encode_compact_size(0x0102_0304_0506_0708),
        vec![0xFF, 0x08, 0x07, 0x06, 0x05, 0x04, 0x03, 0x02, 0x01]
    );
}

#[test]
fn compact_size_round_trips_at_the_boundaries() {
    let values: [u64; 10] = [
        0,
        1,
        0xFC,
        0xFD,
        0xFFFF,
        0x1_0000,
        0xFFFF_FFFF,
        0x1_0000_0000,
        u64::MAX - 1,
        u64::MAX,
    ];
    for n in values {
        let mut bytes = encode_compact_size(n);
        let len = bytes.len();
        bytes.extend_from_slice(&[0xAA, 0xBB]);
        assert_eq!(parse_compact_size(&bytes), (n, len));
    }
}

#[test]
fn compact_size_of_nothing_consumes_nothing() {
    assert_eq!(parse_compact_size(&[]), (0, 0));
}

#[test]
fn compact_size_cut_short_reads_as_zero_and_one() {
    assert_eq!(parse_compact_size(&[0xFE, 1, 2, 3]), (0, 1));
    assert_eq!(parse_compact_size(&[0xFF, 1, 2, 3, 4, 5, 6, 7]), (0, 1));
    assert_eq!(parse_compact_size(&[0xFD]), (0, 1));
}

#[test]
fn compact_size_reads_overlong_forms() {
    assert_eq!(parse_compact_size(&[0xFD, 0x05, 0x00]), (5, 3));
    assert_eq!(parse_compact_size(&[0xFE, 0x05, 0x00, 0x00, 0x00]), (5, 5));
}

#[test]
fn sha256d_of_known_inputs() {
    let empty = sha256d(&[]);
    assert_eq!(
        hex::encode(empty),
        "5df6e0e2761359d30a8275058e299fcc0381534545f55cf43e41983f5d4c9456"
    );
    let hello = sha256d(b"hello");
    assert_eq!(
        hex::encode(hello),
        "9595c9df90075148eb06860365df33584b75bff782a510c6cd4883a419833d50"
    );
}

#[test]
fn hash_hex_reverses_the_bytes() {
    let mut hash = [0u8; 32];
    for i in 0..32 {
        hash[i] = i as u8;
    }
    let item = InventoryItem { inv_type: InventoryType::Block, hash };
    assert_eq!(
        item.hash_hex(),
        "1f1e1d1c1b1a191817161514131211100f0e0d0c0b0a09080706050403020100"
    );
}

#[test]
fn inventory_codes_round_trip() {
    let kinds = [
        (InventoryType::Error, 0u32),
        (InventoryType::Transaction, 1),
        (InventoryType::Block, 2),
        (InventoryType::FilteredBlock, 3),
        (InventoryType::CompactBlock, 4),
        (InventoryType::WitnessTransaction, 0x40000001),
        (InventoryType::WitnessBlock, 0x40000002),
        (InventoryType::FilteredWitnessBlock, 0x40000003),
    ];
    for (kind, code) in kinds {
        assert_eq!(kind.to_u32(), code);
        assert_eq!(InventoryType::from_u32(code), kind);
    }
    assert_eq!(InventoryType::from_u32(5), InventoryType::Error);
    assert_eq!(InventoryType::from_u32(0x40000004), InventoryType::Error);
}

#[test]
fn inventory_names() {
    assert_eq!(InventoryType::Error.name(), "ERROR");
    assert_eq!(InventoryType::FilteredBlock.name(), "FILTERED_BLOCK");
    assert_eq!(InventoryType::CompactBlock.name(), "COMPACT_BLOCK");
    assert_eq!(InventoryType::WitnessTransaction.name(), "WITNESS_TX");
    assert_eq!(InventoryType::FilteredWitnessBlock.name(), "FILTERED_WITNESS_BLOCK");
}

#[test]
fn getdata_payload_is_exact() {
    let item = InventoryItem { inv_type: InventoryType::WitnessBlock, hash: [7u8; 32] };
    let payload = build_getdata_payload(&[item]);
    let mut expected = vec![0x01, 0x02, 0x00, 0x00, 0x40];
    expected.extend_from_slice(&[7u8; 32]);
    assert_eq!(payload, expected);
}

#[test]
fn inventory_round_trips() {
    let mut items = Vec::new();
    for i in 0..300u32 {
        let mut hash = [0u8; 32];
        hash[0] = (i % 256) as u8;
        hash[1] = (i / 256) as u8;
        let inv_type = InventoryType::from_u32(i % 5);
        items.push(InventoryItem { inv_type, hash });
    }
    let payload = build_getdata_payload(&items);
    assert_eq!(&payload[..3], &[0xFD, 0x2C, 0x01]);
    assert_eq!(payload.len(), 3 + 300 * 36);
    let parsed = parse_inv_message(&payload);
    assert_eq!(parsed.len(), 300);
    for (a, b) in parsed.iter().zip(items.iter()) {
        assert_eq!(a.inv_type, b.inv_type);
        assert_eq!(a.hash, b.hash);
    }
}

#[test]
fn inv_parsing_stops_where_the_bytes_run_out() {
    let a = InventoryItem { inv_type: InventoryType::Transaction, hash: [1u8; 32] };
    let b = InventoryItem { inv_type: InventoryType::Block, hash: [2u8; 32] };
    let mut payload = build_getdata_payload(&[a, b]);
    payload.truncate(payload.len() - 1);
    let parsed = parse_inv_message(&payload);
    assert_eq!(parsed.len(), 1);
    assert_eq!(parsed[0].hash, [1u8; 32]);
    payload[0] = 9;
    assert_eq!(parse_inv_message(&payload).len(), 1);
    assert!(parse_inv_message(&[]).is_empty());
    assert!(parse_inv_message(&[0]).is_empty());
}

#[test]
fn version_payload_is_exact() {
    let addr = PeerAddress::v4([1, 2, 3, 4], 8333);
    let payload = build_version_payload(addr, 70015, 0x0102_0304);
    let mut expected: Vec<u8> = Vec::new();
    expected.extend_from_slice(&[0x7F, 0x11, 0x01, 0x00]);
    expected.extend_from_slice(&[1, 0, 0, 0, 0, 0, 0, 0]);
    expected.extend_from_slice(&[0x04, 0x03, 0x02, 0x01, 0, 0, 0, 0]);
    expected.extend_from_slice(&[1, 0, 0, 0, 0, 0, 0, 0]);
    expected.extend_from_slice(&[0, 0, 0, 0, 0, 0, 0, 0, 0, 0, 0xFF, 0xFF, 1, 2, 3, 4]);
    expected.extend_from_slice(&[0x20, 0x8D]);
    expected.extend_from_slice(&[0u8; 8]);
    expected.extend_from_slice(&[0u8; 16]);
    expected.extend_from_slice(&[0, 0]);
    expected.extend_from_slice(&[0x15, 0xCD, 0x5B, 0x07, 0, 0, 0, 0]);
    expected.push(0);
    expected.extend_from_slice(&[0, 0, 0, 0]);
    expected.push(1);
    assert_eq!(payload.len(), 86);
    assert_eq!(payload, expected);
}

#[test]
fn version_payload_for_ipv6_and_negative_time() {
    let mut octets = [0u8; 16];
    octets[0] = 0x20;
    octets[1] = 0x01;
    octets[15] = 0x01;
    let addr = PeerAddress::v6(octets, 18333);
    let payload = build_version_payload(addr, 70016, -1);
    assert_eq!(&payload[0..4], &[0x80, 0x11, 0x01, 0x00]);
    assert_eq!(&payload[12..20], &[0xFF; 8]);
    assert_eq!(&payload[28..44], &octets);
    assert_eq!(&payload[44..46], &[0x47, 0x9D]);
}

#[test]
fn announced_version_is_the_first_four_bytes() {
    assert_eq!(advertised_version(&[0x7F, 0x11, 0x01, 0x00, 9, 9]), Some(70015));
    assert_eq!(advertised_version(&[0xFF, 0xFF, 0xFF, 0xFF]), Some(u32::MAX));
    assert_eq!(advertised_version(&[0x7F, 0x11, 0x01]), None);
    assert_eq!(advertised_version(&[]), None);
}
