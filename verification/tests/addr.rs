use bitcoin_client::p2p::address::{IpAddress, PeerAddress};
use bitcoin_client::p2p::utils::parse_addr_message;

fn entry(ip16: [u8; 16], port: u16) -> Vec<u8> {
    let mut out = vec![0x11, 0x22, 0x33, 0x44];
    out.extend_from_slice(&[1, 0, 0, 0, 0, 0, 0, 0]);
    out.extend_from_slice(&ip16);
    out.extend_from_slice(&port.to_be_bytes());
    out
}

fn mapped(a: u8, b: u8, c: u8, d: u8) -> [u8; 16] {
    [0, 0, 0, 0, 0, 0, 0, 0, 0, 0, 0xFF, 0xFF, a, b, c, d]
}

#[test]
fn addr_with_two_ipv4_entries() {
    let mut payload = vec![2u8];
    payload.extend(entry(mapped(1, 2, 3, 4), 8333));
    payload.extend(entry(mapped(5, 6, 7, 8), 8333));
    let addrs = parse_addr_message(&payload);
    assert_eq!(
        addrs,
        vec![PeerAddress::v4([1, 2, 3, 4], 8333), PeerAddress::v4([5, 6, 7, 8], 8333)]
    );
}

#[test]
fn addr_with_an_ipv6_entry() {
    let mut ip = [0u8; 16];
    ip[0] = 0x20;
    ip[1] = 0x01;
    ip[15] = 9;
    let mut payload = vec![1u8];
    payload.extend(entry(ip, 18333));
    let addrs = parse_addr_message(&payload);
    assert_eq!(addrs, vec![PeerAddress::v6(ip, 18333)]);
    assert_eq!(addrs[0].ip, IpAddress::V6(ip));
}

#[test]
fn addr_reads_every_entry_that_is_announced() {
    let mut payload = vec![12u8];
    for i in 0..12u8 {
        payload.extend(entry(mapped(10, 0, 0, i), 8000 + i as u16));
    }
    let addrs = parse_addr_message(&payload);
    assert_eq!(addrs.len(), 12);
    assert_eq!(addrs[11], PeerAddress::v4([10, 0, 0, 11], 8011));
}

#[test]
fn addr_stops_where_the_bytes_run_out() {
    let mut payload = vec![3u8];
    payload.extend(entry(mapped(1, 1, 1, 1), 1));
    payload.extend(entry(mapped(2, 2, 2, 2), 2));
    payload.extend_from_slice(&[0u8; 29]);
    let addrs = parse_addr_message(&payload);
    assert_eq!(addrs.len(), 2);
    assert!(parse_addr_message(&[]).is_empty());
    assert!(parse_addr_message(&[0]).is_empty());
    assert!(parse_addr_message(&[5, 1, 2, 3]).is_empty());
}

#[test]
fn wire16_forms() {
    let v4 = IpAddress::V4([9, 8, 7, 6]);
    assert_eq!(v4.to_wire16(), mapped(9, 8, 7, 6));
    let data = mapped(9, 8, 7, 6);
    assert_eq!(IpAddress::from_wire16(&data, 0), v4);
    let mut almost = mapped(9, 8, 7, 6);
    almost[0] = 1;
    assert_eq!(IpAddress::from_wire16(&almost, 0), IpAddress::V6(almost));
    let mut almost = mapped(9, 8, 7, 6);
    almost[10] = 0xFE;
    assert_eq!(IpAddress::from_wire16(&almost, 0), IpAddress::V6(almost));
}

#[test]
fn same_as_tells_endpoints_apart() {
    let a = PeerAddress::v4([1, 2, 3, 4], 8333);
    assert!(a.same_as(&PeerAddress::v4([1, 2, 3, 4], 8333)));
    assert!(!a.same_as(&PeerAddress::v4([1, 2, 3, 4], 8334)));
    assert!(!a.same_as(&PeerAddress::v4([1, 2, 3, 5], 8333)));
    assert!(!a.same_as(&PeerAddress::v6(mapped(1, 2, 3, 4), 8333)));
}

#[test]
fn endpoints_in_text() {
    assert_eq!(PeerAddress::v4([1, 2, 3, 4], 8333).to_text(), "1.2.3.4:8333");
    assert_eq!(PeerAddress::v4([0, 0, 0, 0], 0).to_text(), "0.0.0.0:0");
    assert_eq!(PeerAddress::v4([255, 100, 10, 9], 65535).to_text(), "255.100.10.9:65535");
    let seg = |s: [u16; 8]| {
        let mut o = [0u8; 16];
        for i in 0..8 {
            o[2 * i] = (s[i] >> 8) as u8;
            o[2 * i + 1] = (s[i] & 0xFF) as u8;
        }
        o
    };
    let text = |s: [u16; 8], port: u16| PeerAddress::v6(seg(s), port).to_text();
    assert_eq!(text([0, 0, 0, 0, 0, 0, 0, 0], 0), "[::]:0");
    assert_eq!(text([0, 0, 0, 0, 0, 0, 0, 1], 8333), "[::1]:8333");
    assert_eq!(text([0x2001, 0xdb8, 0, 0, 0, 0, 0, 1], 8333), "[2001:db8::1]:8333");
    assert_eq!(text([1, 0, 0, 2, 0, 0, 0, 3], 1), "[1:0:0:2::3]:1");
    assert_eq!(text([0, 0, 1, 0, 0, 1, 0, 0], 1), "[::1:0:0:1:0:0]:1");
    assert_eq!(text([1, 0, 2, 3, 4, 5, 6, 7], 1), "[1:0:2:3:4:5:6:7]:1");
    assert_eq!(text([1, 2, 3, 4, 5, 6, 0, 0], 1), "[1:2:3:4:5:6::]:1");
    assert_eq!(
        text([0xfe80, 0, 0, 0, 0xabcd, 0xf, 0x10, 0x100], 53),
        "[fe80::abcd:f:10:100]:53"
    );
    assert_eq!(text([0, 0, 0, 0, 0, 0xffff, 0x0102, 0x0304], 80), "[::ffff:1.2.3.4]:80");
}
