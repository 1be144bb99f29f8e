//! The wire codec's building blocks: the network magic, the double SHA-256
//! checksum, compact-size integers and the payloads this client reads and
//! writes.

use sha2::{Digest, Sha256};
use vstd::prelude::*;

use crate::p2p::address::{Endpoint, Ip, IpAddress, PeerAddress};
use crate::p2p::bytes::{
    be_u16_at, i64_le, le_u16_at, le_u32_at, le_u64_at, lemma_u16_le_round_trip,
    lemma_u32_le_round_trip, lemma_u64_le_round_trip, push_bytes, push_i64_le, push_u16_be,
    push_u16_le, push_u32_le, push_u64_le, read_u16_be, read_u16_le, read_u32_le, read_u64_le,
    u16_be, u16_le, u32_le, u64_le,
};
use crate::p2p::inventory::{
    inventory_type_of, lemma_inventory_type_round_trip, InventoryEntry, InventoryItem,
    InventoryType,
};

verus! {

/// The four bytes that open every mainnet message.
pub const MAGIC: [u8; 4] = [0xF9, 0xBE, 0xB4, 0xD9];

/// The protocol version that this client announces unless told otherwise.
pub const PROTOCOL_VERSION: u32 = 70015;

/// The service bit of a full node.
pub const NODE_NETWORK: u64 = 1;

/// The nonce of every `version` message that this client sends.
pub const VERSION_NONCE: u64 = 123456789;

/// The SHA-256 digest of `data`, as `sha2::Sha256` computes it.
pub uninterp spec fn spec_sha256(data: Seq<u8>) -> Seq<u8>;

/// SHA-256 applied twice.
pub open spec fn spec_sha256d(data: Seq<u8>) -> Seq<u8> {
    spec_sha256(spec_sha256(data))
}

/// Calls `sha2::Sha256::digest` (the `Digest::digest` one-shot function) on
/// `data`. The contract only gives the 32-byte result its name: the digest
/// is a function of the input bytes alone.
#[verifier::external_body]
fn sha256(data: &[u8]) -> (digest: [u8; 32])
    ensures
        digest@ == spec_sha256(data@),
{
    Sha256::digest(data).into()
}

/// Double SHA-256: the digest of the digest of `data`.
pub fn sha256d(data: &[u8]) -> (digest: [u8; 32])
    ensures
        digest@ == spec_sha256d(data@),
{
    let first: [u8; 32] = sha256(data);
    sha256(first.as_slice())
}

/// The compact-size encoding of `n`: one byte below `0xFD`, else the
/// smallest of the discriminators `0xFD`, `0xFE`, `0xFF` whose little-endian
/// field holds `n`.
pub open spec fn compact_size_encoding(n: u64) -> Seq<u8> {
    if n < 0xFD {
        seq![n as u8]
    } else if n <= 0xFFFF {
        seq![0xFDu8] + u16_le(n as u16)
    } else if n <= 0xFFFF_FFFF {
        seq![0xFEu8] + u32_le(n as u32)
    } else {
        seq![0xFFu8] + u64_le(n)
    }
}

/// The number of bytes that a compact-size integer starting with `first`
/// occupies.
pub open spec fn compact_size_width(first: u8) -> int {
    if first <= 0xFC {
        1
    } else if first == 0xFD {
        3
    } else if first == 0xFE {
        5
    } else {
        9
    }
}

/// What reading a compact-size integer at the start of `data` gives: the
/// value and the number of bytes consumed. Empty input gives `(0, 0)`; input
/// shorter than its discriminator announces gives `(0, 1)`.
pub open spec fn compact_size_decoding(data: Seq<u8>) -> (int, int) {
    if data.len() == 0 {
        (0, 0)
    } else if data.len() < compact_size_width(data[0]) {
        (0, 1)
    } else if data[0] <= 0xFC {
        (data[0] as int, 1)
    } else if data[0] == 0xFD {
        (le_u16_at(data, 1), 3)
    } else if data[0] == 0xFE {
        (le_u32_at(data, 1), 5)
    } else {
        (le_u64_at(data, 1), 9)
    }
}

/// Reads the compact-size integer at the start of `data`; returns the value
/// and the number of bytes consumed.
pub fn parse_compact_size(data: &[u8]) -> (r: (u64, usize))
    ensures
        r.0 == compact_size_decoding(data@).0,
        r.1 == compact_size_decoding(data@).1,
{
    if data.len() == 0 {
        return (0, 0);
    }
    let first: u8 = data[0];
    if first <= 0xFC {
        (first as u64, 1)
    } else if first == 0xFD {
        if data.len() >= 3 {
            (read_u16_le(data, 1) as u64, 3)
        } else {
            (0, 1)
        }
    } else if first == 0xFE {
        if data.len() >= 5 {
            (read_u32_le(data, 1) as u64, 5)
        } else {
            (0, 1)
        }
    } else {
        if data.len() >= 9 {
            (read_u64_le(data, 1), 9)
        } else {
            (0, 1)
        }
    }
}

/// Writes `n` as a compact-size integer.
pub fn encode_compact_size(n: u64) -> (out: Vec<u8>)
    ensures
        out@ == compact_size_encoding(n),
{
    let mut out: Vec<u8> = Vec::new();
    if n < 0xFD {
        out.push(n as u8);
    } else if n <= 0xFFFF {
        out.push(0xFD);
        push_u16_le(&mut out, n as u16);
    } else if n <= 0xFFFF_FFFF {
        out.push(0xFE);
        push_u32_le(&mut out, n as u32);
    } else {
        out.push(0xFF);
        push_u64_le(&mut out, n);
    }
    out
}

/// Round trip: reading the encoding of `n`, whatever follows it, gives `n`
/// and the encoding's length.
pub proof fn lemma_compact_size_round_trip(n: u64, rest: Seq<u8>)
    ensures
        compact_size_decoding(compact_size_encoding(n) + rest) == (
            n as int,
            compact_size_encoding(n).len() as int,
        ),
{
    let enc = compact_size_encoding(n);
    let data = enc + rest;
    if n < 0xFD {
        assert(data[0] == n as u8);
    } else if n <= 0xFFFF {
        lemma_u16_le_round_trip(n as u16);
        assert(data[0] == 0xFD);
        assert(data[1] == u16_le(n as u16)[0]);
        assert(data[2] == u16_le(n as u16)[1]);
    } else if n <= 0xFFFF_FFFF {
        lemma_u32_le_round_trip(n as u32);
        assert(data[0] == 0xFE);
        assert(data[1] == u32_le(n as u32)[0]);
        assert(data[2] == u32_le(n as u32)[1]);
        assert(data[3] == u32_le(n as u32)[2]);
        assert(data[4] == u32_le(n as u32)[3]);
    } else {
        lemma_u64_le_round_trip(n);
        assert(data[0] == 0xFF);
        assert(data[1] == u64_le(n)[0]);
        assert(data[2] == u64_le(n)[1]);
        assert(data[3] == u64_le(n)[2]);
        assert(data[4] == u64_le(n)[3]);
        assert(data[5] == u64_le(n)[4]);
        assert(data[6] == u64_le(n)[5]);
        assert(data[7] == u64_le(n)[6]);
        assert(data[8] == u64_le(n)[7]);
    }
}

/// The encoding is minimal: no input that reads as `n` is shorter than the
/// encoding of `n`, so the encoder never uses an overlong form.
pub proof fn lemma_compact_size_minimal(data: Seq<u8>, n: u64)
    requires
        data.len() > 0,
        compact_size_decoding(data).0 == n,
    ensures
        compact_size_encoding(n).len() <= compact_size_decoding(data).1,
{
}

/// The inventory entry whose 36 bytes start at `at`.
pub open spec fn inv_entry_at(payload: Seq<u8>, at: int) -> InventoryEntry {
    InventoryEntry {
        inv_type: inventory_type_of(le_u32_at(payload, at) as u32),
        hash: payload.subrange(at + 4, at + 36),
    }
}

/// How many entries an `inv` payload yields: the announced count, or as many
/// whole entries as the bytes after the count hold, if those are fewer.
pub open spec fn inv_entry_count(payload: Seq<u8>) -> int {
    let (count, start) = compact_size_decoding(payload);
    let whole = (payload.len() - start) / 36;
    if count <= whole {
        count
    } else {
        whole
    }
}

/// The entries of an `inv` payload, in order.
pub open spec fn parsed_inventory(payload: Seq<u8>) -> Seq<InventoryEntry> {
    Seq::new(
        inv_entry_count(payload) as nat,
        |i: int| inv_entry_at(payload, compact_size_decoding(payload).1 + 36 * i),
    )
}

/// The 32 bytes at `at`, as a hash.
fn read_hash(data: &[u8], at: usize) -> (hash: [u8; 32])
    requires
        at + 32 <= data@.len(),
    ensures
        hash@ == data@.subrange(at as int, at + 32),
{
    let len: usize = data.len();
    let mut hash: [u8; 32] = [0u8; 32];
    let mut i: usize = 0;
    while i < 32
        invariant
            i <= 32,
            at + 32 <= len,
            len == data@.len(),
            forall|j: int| 0 <= j < i ==> hash@[j] == data@[at + j],
        decreases 32 - i,
    {
        hash[i] = data[at + i];
        i += 1;
    }
    assert(hash@ =~= data@.subrange(at as int, at + 32));
    hash
}

/// Reads an `inv` payload: a compact-size count, then that many entries of
/// 36 bytes. Reading stops without error where the bytes run out.
pub fn parse_inv_message(payload: &[u8]) -> (items: Vec<InventoryItem>)
    ensures
        items.deep_view() == parsed_inventory(payload@),
{
    let mut items: Vec<InventoryItem> = Vec::new();
    let (count, start) = parse_compact_size(payload);
    let len: usize = payload.len();
    let mut offset: usize = start;
    let mut i: u64 = 0;
    while i < count && len - offset >= 36
        invariant
            len == payload@.len(),
            count == compact_size_decoding(payload@).0,
            start == compact_size_decoding(payload@).1,
            offset == start + 36 * i,
            offset <= len,
            i <= count,
            items@.len() == i,
            forall|j: int|
                0 <= j < i ==> (#[trigger] items@[j])@ == inv_entry_at(payload@, start + 36 * j),
        decreases count - i,
    {
        let code: u32 = read_u32_le(payload, offset);
        let hash: [u8; 32] = read_hash(payload, offset + 4);
        items.push(InventoryItem { inv_type: InventoryType::from_u32(code), hash });
        offset += 36;
        i += 1;
    }
    assert(i == inv_entry_count(payload@));
    assert(items.deep_view() =~= parsed_inventory(payload@));
    items
}

/// The bytes of `items`, 36 for each, one entry after the other.
pub open spec fn entries_wire(items: Seq<InventoryEntry>) -> Seq<u8> {
    Seq::new(36 * items.len(), |k: int| items[k / 36].wire()[k % 36])
}

/// A `getdata` payload (an `inv` payload has the same form): the number of
/// entries as a compact-size integer, then the entries.
pub open spec fn inventory_payload(items: Seq<InventoryEntry>) -> Seq<u8> {
    compact_size_encoding(items.len() as u64) + entries_wire(items)
}

/// Writes the `getdata` payload that requests `items`.
pub fn build_getdata_payload(items: &[InventoryItem]) -> (payload: Vec<u8>)
    ensures
        payload@ == inventory_payload(items.deep_view()),
{
    let count: usize = items.len();
    let mut payload: Vec<u8> = encode_compact_size(count as u64);
    let ghost head = payload@;
    let ghost entries = items.deep_view();
    let mut i: usize = 0;
    while i < count
        invariant
            i <= count,
            count == items@.len(),
            entries == items.deep_view(),
            payload@ == head + entries_wire(entries.take(i as int)),
        decreases count - i,
    {
        let item: &InventoryItem = &items[i];
        let ghost before = payload@;
        push_u32_le(&mut payload, item.inv_type.to_u32());
        push_bytes(&mut payload, item.hash.as_slice());
        proof {
            let e = entries[i as int];
            assert(e == item@);
            assert(payload@ == before + e.wire());
            let shorter = entries.take(i as int);
            let longer = entries.take(i + 1);
            assert(e.wire().len() == 36);
            assert forall|k: int| 0 <= k < 36 * (i + 1) implies #[trigger] entries_wire(longer)[k]
                == (entries_wire(shorter) + e.wire())[k] by {
                if k < 36 * i {
                    assert(k / 36 < i);
                    assert(longer[k / 36] == shorter[k / 36]);
                } else {
                    assert(k / 36 == i);
                    assert(k % 36 == k - 36 * i);
                }
            }
            assert(entries_wire(longer) =~= entries_wire(shorter) + e.wire());
        }
        i += 1;
    }
    assert(entries.take(count as int) =~= entries);
    payload
}

/// Round trip: reading the payload written for `items` gives `items` back.
pub proof fn lemma_inventory_round_trip(items: Seq<InventoryEntry>)
    requires
        items.len() <= u64::MAX,
        forall|i: int| 0 <= i < items.len() ==> (#[trigger] items[i]).hash.len() == 32,
    ensures
        parsed_inventory(inventory_payload(items)) == items,
{
    let n = items.len() as u64;
    let head = compact_size_encoding(n);
    let body = entries_wire(items);
    let payload = inventory_payload(items);
    lemma_compact_size_round_trip(n, body);
    let start = head.len() as int;
    assert(compact_size_decoding(payload) == (n as int, start));
    assert((payload.len() - start) / 36 == items.len());
    assert(inv_entry_count(payload) == items.len());
    assert forall|i: int| 0 <= i < items.len() implies inv_entry_at(payload, start + 36 * i)
        == #[trigger] items[i] by {
        let e = items[i];
        let at = start + 36 * i;
        assert forall|j: int| 0 <= j < 36 implies payload[at + j] == e.wire()[j] by {
            let k = 36 * i + j;
            assert(payload[at + j] == body[k]);
            assert(k / 36 == i);
            assert(k % 36 == j);
        }
        lemma_u32_le_round_trip(e.inv_type.code());
        assert(payload[at] == e.wire()[0]);
        assert(payload[at + 1] == e.wire()[1]);
        assert(payload[at + 2] == e.wire()[2]);
        assert(payload[at + 3] == e.wire()[3]);
        assert(le_u32_at(payload, at) == e.inv_type.code());
        lemma_inventory_type_round_trip(e.inv_type);
        assert forall|j: int| 0 <= j < 32 implies payload.subrange(at + 4, at + 36)[j]
            == e.hash[j] by {
            assert(payload[at + 4 + j] == e.wire()[4 + j]);
        }
        assert(payload.subrange(at + 4, at + 36) =~= e.hash);
    }
    assert(parsed_inventory(payload) =~= items);
}

/// A network address field: services in little endian, the 16-byte address
/// and the port in big endian.
pub open spec fn net_addr_wire(services: u64, ip16: Seq<u8>, port: u16) -> Seq<u8> {
    u64_le(services) + ip16 + u16_be(port)
}

/// The payload of the `version` message sent to `peer`: protocol version,
/// this node's services, the time, the recipient's address with the services
/// of a full node, an all-zero sender address, the nonce, an empty user
/// agent, start height 0 and the relay flag.
pub open spec fn version_payload(peer: Endpoint, protocol_version: u32, timestamp: i64) -> Seq<u8> {
    u32_le(protocol_version) + u64_le(NODE_NETWORK) + i64_le(timestamp) + net_addr_wire(
        NODE_NETWORK,
        peer.ip.wire16(),
        peer.port,
    ) + net_addr_wire(0, Seq::new(16, |i: int| 0u8), 0) + u64_le(VERSION_NONCE) + seq![0u8]
        + seq![0u8, 0u8, 0u8, 0u8] + seq![1u8]
}

/// Writes the payload of the `version` message that opens a session with
/// `peer_addr`. `timestamp` is the current time in Unix seconds.
pub fn build_version_payload(
    peer_addr: PeerAddress,
    protocol_version: u32,
    timestamp: i64,
) -> (payload: Vec<u8>)
    ensures
        payload@ == version_payload(peer_addr@, protocol_version, timestamp),
{
    let mut payload: Vec<u8> = Vec::new();
    push_u32_le(&mut payload, protocol_version);
    push_u64_le(&mut payload, NODE_NETWORK);
    push_i64_le(&mut payload, timestamp);
    // The recipient.
    push_u64_le(&mut payload, NODE_NETWORK);
    let ip16: [u8; 16] = peer_addr.ip.to_wire16();
    push_bytes(&mut payload, ip16.as_slice());
    push_u16_be(&mut payload, peer_addr.port);
    // The sender: all zeros.
    push_u64_le(&mut payload, 0);
    let zeros: [u8; 16] = [0u8; 16];
    assert(zeros@ =~= Seq::new(16, |i: int| 0u8));
    push_bytes(&mut payload, zeros.as_slice());
    push_u16_be(&mut payload, 0);
    push_u64_le(&mut payload, VERSION_NONCE);
    // An empty user agent.
    payload.push(0x00);
    // Start height 0.
    payload.push(0);
    payload.push(0);
    payload.push(0);
    payload.push(0);
    // Relay.
    payload.push(0x01);
    assert(payload@ =~= version_payload(peer_addr@, protocol_version, timestamp));
    payload
}

/// The protocol version that a `version` payload announces: its first four
/// bytes in little endian, if there are as many.
pub fn advertised_version(payload: &[u8]) -> (version: Option<u32>)
    ensures
        version == if payload@.len() >= 4 {
            Some(le_u32_at(payload@, 0) as u32)
        } else {
            None
        },
{
    if payload.len() >= 4 {
        Some(read_u32_le(payload, 0))
    } else {
        None
    }
}

/// The endpoint in the 30-byte `addr` entry that starts at `at`: after four
/// bytes of time and eight of services, the 16-byte address and the port in
/// big endian.
pub open spec fn addr_entry_at(payload: Seq<u8>, at: int) -> Endpoint {
    Endpoint {
        ip: Ip::of_wire16(payload.subrange(at + 12, at + 28)),
        port: be_u16_at(payload, at + 28) as u16,
    }
}

/// How many endpoints an `addr` payload yields: the announced count, or as
/// many whole entries as the bytes after the count hold, if those are fewer.
pub open spec fn addr_entry_count(payload: Seq<u8>) -> int {
    let (count, start) = compact_size_decoding(payload);
    let whole = (payload.len() - start) / 30;
    if count <= whole {
        count
    } else {
        whole
    }
}

/// The endpoints of an `addr` payload, in order.
pub open spec fn parsed_addresses(payload: Seq<u8>) -> Seq<Endpoint> {
    Seq::new(
        addr_entry_count(payload) as nat,
        |i: int| addr_entry_at(payload, compact_size_decoding(payload).1 + 30 * i),
    )
}

/// Reads an `addr` payload: a compact-size count, then that many entries of
/// 30 bytes. Reading stops without error where the bytes run out.
pub fn parse_addr_message(payload: &[u8]) -> (addresses: Vec<PeerAddress>)
    ensures
        addresses.deep_view() == parsed_addresses(payload@),
{
    let mut addresses: Vec<PeerAddress> = Vec::new();
    let (count, start) = parse_compact_size(payload);
    let len: usize = payload.len();
    let mut offset: usize = start;
    let mut i: u64 = 0;
    while i < count && len - offset >= 30
        invariant
            len == payload@.len(),
            count == compact_size_decoding(payload@).0,
            start == compact_size_decoding(payload@).1,
            offset == start + 30 * i,
            offset <= len,
            i <= count,
            addresses@.len() == i,
            forall|j: int|
                0 <= j < i ==> (#[trigger] addresses@[j])@ == addr_entry_at(
                    payload@,
                    start + 30 * j,
                ),
        decreases count - i,
    {
        let ip: IpAddress = IpAddress::from_wire16(payload, offset + 12);
        let port: u16 = read_u16_be(payload, offset + 28);
        addresses.push(PeerAddress { ip, port });
        offset += 30;
        i += 1;
    }
    assert(i == addr_entry_count(payload@));
    assert(addresses.deep_view() =~= parsed_addresses(payload@));
    addresses
}

} // verus!
