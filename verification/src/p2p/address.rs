//! Peer endpoints: an IP address, version 4 or 6, and a port.

use vstd::prelude::*;

use crate::p2p::text::{
    ascii_string, ascii_text, bytes_eq, decimal_bytes, hex_bytes, is_ascii_bytes, push_ascii,
    push_decimal, push_hex,
};

verus! {

/// An IP address.
#[derive(Debug, Clone, Copy, PartialEq, Eq, Hash)]
pub enum IpAddress {
    V4([u8; 4]),
    V6([u8; 16]),
}

/// A transport endpoint.
#[derive(Debug, Clone, Copy, PartialEq, Eq, Hash)]
pub struct PeerAddress {
    pub ip: IpAddress,
    pub port: u16,
}

/// An IP address as a mathematical value: its version and its octets.
pub ghost enum Ip {
    V4(Seq<u8>),
    V6(Seq<u8>),
}

/// An endpoint as a mathematical value.
pub ghost struct Endpoint {
    pub ip: Ip,
    pub port: u16,
}

/// The twelve bytes that open the 16-byte form of an IPv4 address: ten zero
/// bytes, then `0xFF 0xFF`.
pub open spec fn v4_mapped_prefix() -> Seq<u8> {
    seq![0u8, 0u8, 0u8, 0u8, 0u8, 0u8, 0u8, 0u8, 0u8, 0u8, 0xFFu8, 0xFFu8]
}

impl Ip {
    /// The octets of the address: four or sixteen.
    pub open spec fn octets(self) -> Seq<u8> {
        match self {
            Ip::V4(o) => o,
            Ip::V6(o) => o,
        }
    }

    /// Whether the address has as many octets as its version asks for.
    pub open spec fn well_formed(self) -> bool {
        match self {
            Ip::V4(o) => o.len() == 4,
            Ip::V6(o) => o.len() == 16,
        }
    }

    /// The 16 bytes of the address in a network address field: an IPv6
    /// address as it is, an IPv4 address behind the mapped prefix.
    pub open spec fn wire16(self) -> Seq<u8> {
        match self {
            Ip::V4(o) => v4_mapped_prefix() + o,
            Ip::V6(o) => o,
        }
    }

    /// The address that 16 bytes of a network address field stand for: IPv4
    /// where they open with the mapped prefix, IPv6 otherwise.
    pub open spec fn of_wire16(bytes: Seq<u8>) -> Ip {
        if bytes.subrange(0, 12) == v4_mapped_prefix() {
            Ip::V4(bytes.subrange(12, 16))
        } else {
            Ip::V6(bytes)
        }
    }
}

impl View for IpAddress {
    type V = Ip;

    open spec fn view(&self) -> Ip {
        match self {
            IpAddress::V4(o) => Ip::V4(o@),
            IpAddress::V6(o) => Ip::V6(o@),
        }
    }
}

impl View for PeerAddress {
    type V = Endpoint;

    open spec fn view(&self) -> Endpoint {
        Endpoint { ip: self.ip@, port: self.port }
    }
}

impl DeepView for PeerAddress {
    type V = Endpoint;

    open spec fn deep_view(&self) -> Endpoint {
        self.view()
    }
}

/// Writing an address into 16 bytes and reading it back gives the address,
/// unless it is an IPv6 address that opens with the mapped prefix: that one
/// reads back as the IPv4 address in its last four octets.
pub proof fn lemma_wire16_round_trip(ip: Ip)
    requires
        ip.well_formed(),
    ensures
        ip.wire16().len() == 16,
        Ip::of_wire16(ip.wire16()) == (if ip is V6 && ip.octets().subrange(0, 12)
            == v4_mapped_prefix() {
            Ip::V4(ip.octets().subrange(12, 16))
        } else {
            ip
        }),
{
    match ip {
        Ip::V4(o) => {
            assert(ip.wire16().subrange(0, 12) =~= v4_mapped_prefix());
            assert(ip.wire16().subrange(12, 16) =~= o);
        },
        Ip::V6(o) => {},
    }
}

/// Reading 16 bytes as an address and writing it back gives the same bytes.
pub proof fn lemma_of_wire16_round_trip(bytes: Seq<u8>)
    requires
        bytes.len() == 16,
    ensures
        Ip::of_wire16(bytes).well_formed(),
        Ip::of_wire16(bytes).wire16() == bytes,
{
    if bytes.subrange(0, 12) == v4_mapped_prefix() {
        assert(bytes.subrange(0, 12) + bytes.subrange(12, 16) =~= bytes);
    }
}

impl IpAddress {
    /// Whether two addresses are the same.
    pub fn same_as(&self, other: &IpAddress) -> (same: bool)
        ensures
            same == (self@ == other@),
    {
        match (self, other) {
            (IpAddress::V4(a), IpAddress::V4(b)) => bytes_eq(a.as_slice(), b.as_slice()),
            (IpAddress::V6(a), IpAddress::V6(b)) => bytes_eq(a.as_slice(), b.as_slice()),
            _ => false,
        }
    }

    /// The 16 bytes of the address in a network address field.
    pub fn to_wire16(&self) -> (bytes: [u8; 16])
        ensures
            bytes@ == self@.wire16(),
    {
        match self {
            IpAddress::V4(o) => {
                let bytes: [u8; 16] = [
                    0,
                    0,
                    0,
                    0,
                    0,
                    0,
                    0,
                    0,
                    0,
                    0,
                    0xFF,
                    0xFF,
                    o[0],
                    o[1],
                    o[2],
                    o[3],
                ];
                assert(bytes@ =~= self@.wire16());
                bytes
            },
            IpAddress::V6(o) => *o,
        }
    }

    /// The address that the 16 bytes at `at` stand for.
    pub fn from_wire16(data: &[u8], at: usize) -> (ip: IpAddress)
        requires
            at + 16 <= data@.len(),
        ensures
            ip@ == Ip::of_wire16(data@.subrange(at as int, at + 16)),
    {
        let len: usize = data.len();
        let ghost field = data@.subrange(at as int, at + 16);
        let mut mapped: bool = data[at + 10] == 0xFF && data[at + 11] == 0xFF;
        let mut i: usize = 0;
        while i < 10
            invariant
                i <= 10,
                at + 16 <= len,
                len == data@.len(),
                field == data@.subrange(at as int, at + 16),
                mapped <==> (field[10] == 0xFF && field[11] == 0xFF && forall|j: int|
                    0 <= j < i ==> field[j] == 0),
            decreases 10 - i,
        {
            assert(field[i as int] == data@[at + i]);
            if data[at + i] != 0 {
                mapped = false;
            }
            i += 1;
        }
        proof {
            if mapped {
                assert(field.subrange(0, 12) =~= v4_mapped_prefix());
            } else {
                if field.subrange(0, 12) == v4_mapped_prefix() {
                    assert(forall|j: int| 0 <= j < 12 ==> field[j] == field.subrange(0, 12)[j]);
                    assert(false);
                }
            }
        }
        if mapped {
            let o: [u8; 4] = [data[at + 12], data[at + 13], data[at + 14], data[at + 15]];
            assert(o@ =~= field.subrange(12, 16));
            IpAddress::V4(o)
        } else {
            let mut o: [u8; 16] = [0u8; 16];
            let mut k: usize = 0;
            while k < 16
                invariant
                    k <= 16,
                    at + 16 <= len,
                    len == data@.len(),
                    forall|j: int| 0 <= j < k ==> o@[j] == data@[at + j],
                decreases 16 - k,
            {
                o[k] = data[at + k];
                k += 1;
            }
            assert(o@ =~= field);
            IpAddress::V6(o)
        }
    }
}

impl PeerAddress {
    /// An IPv4 endpoint.
    pub fn v4(octets: [u8; 4], port: u16) -> (addr: PeerAddress)
        ensures
            addr@ == (Endpoint { ip: Ip::V4(octets@), port }),
    {
        PeerAddress { ip: IpAddress::V4(octets), port }
    }

    /// An IPv6 endpoint.
    pub fn v6(octets: [u8; 16], port: u16) -> (addr: PeerAddress)
        ensures
            addr@ == (Endpoint { ip: Ip::V6(octets@), port }),
    {
        PeerAddress { ip: IpAddress::V6(octets), port }
    }

    /// Whether two endpoints are the same: the same address and the same
    /// port.
    pub fn same_as(&self, other: &PeerAddress) -> (same: bool)
        ensures
            same == (self@ == other@),
    {
        self.port == other.port && self.ip.same_as(&other.ip)
    }
}

/// An IPv4 address in text, as ASCII bytes: four decimal numbers with dots
/// between them.
pub open spec fn ipv4_bytes(o: Seq<u8>) -> Seq<u8> {
    decimal_bytes(o[0] as nat) + seq![0x2Eu8] + decimal_bytes(o[1] as nat) + seq![0x2Eu8]
        + decimal_bytes(o[2] as nat) + seq![0x2Eu8] + decimal_bytes(o[3] as nat)
}

/// The 16-bit segment `i` of an IPv6 address.
pub open spec fn segment(o: Seq<u8>, i: int) -> nat {
    (0x100 * o[2 * i] + o[2 * i + 1]) as nat
}

/// How many zero segments follow one another from segment `start` on.
pub open spec fn zero_run(o: Seq<u8>, start: int) -> int
    decreases 8 - start,
{
    if start < 0 || start >= 8 || segment(o, start) != 0 {
        0
    } else {
        1 + zero_run(o, start + 1)
    }
}

/// The longest run of zero segments that starts before segment `upto`: its
/// start and its length; of several of that length, the first.
pub open spec fn longest_zero_run(o: Seq<u8>, upto: int) -> (int, int)
    decreases upto,
{
    if upto <= 0 {
        (0, 0)
    } else {
        let best = longest_zero_run(o, upto - 1);
        if zero_run(o, upto - 1) > best.1 {
            (upto - 1, zero_run(o, upto - 1))
        } else {
            best
        }
    }
}

/// The segments from `from` up to `to`, in hexadecimal with colons between
/// them.
pub open spec fn segments_bytes(o: Seq<u8>, from: int, to: int) -> Seq<u8>
    decreases to - from,
{
    if to <= from {
        Seq::empty()
    } else if to == from + 1 {
        hex_bytes(segment(o, from))
    } else {
        segments_bytes(o, from, to - 1) + seq![0x3Au8] + hex_bytes(segment(o, to - 1))
    }
}

/// An IPv6 address in text, as ASCII bytes. An address that opens with the
/// mapped prefix is written `::ffff:` and its last four octets as an IPv4
/// address. In any other, the longest run of two or more zero segments is
/// written `::`.
pub open spec fn ipv6_bytes(o: Seq<u8>) -> Seq<u8> {
    if o.subrange(0, 12) == v4_mapped_prefix() {
        seq![0x3Au8, 0x3Au8, 0x66u8, 0x66u8, 0x66u8, 0x66u8, 0x3Au8] + ipv4_bytes(
            o.subrange(12, 16),
        )
    } else {
        let (start, len) = longest_zero_run(o, 8);
        if len > 1 {
            segments_bytes(o, 0, start) + seq![0x3Au8, 0x3Au8] + segments_bytes(o, start + len, 8)
        } else {
            segments_bytes(o, 0, 8)
        }
    }
}

impl Endpoint {
    /// The endpoint in text, as ASCII bytes: `a.b.c.d:port`, or
    /// `[ipv6]:port`.
    pub open spec fn text_bytes(self) -> Seq<u8> {
        match self.ip {
            Ip::V4(o) => ipv4_bytes(o) + seq![0x3Au8] + decimal_bytes(self.port as nat),
            Ip::V6(o) => seq![0x5Bu8] + ipv6_bytes(o) + seq![0x5Du8, 0x3Au8] + decimal_bytes(
                self.port as nat,
            ),
        }
    }

    /// The endpoint in text.
    pub open spec fn text(self) -> Seq<char> {
        ascii_text(self.text_bytes())
    }
}

/// Appends an IPv4 address in text.
fn push_ipv4(out: &mut Vec<u8>, o: &[u8], at: usize)
    requires
        at + 4 <= o@.len(),
    ensures
        final(out)@ == old(out)@ + ipv4_bytes(o@.subrange(at as int, at + 4)),
        is_ascii_bytes(old(out)@) ==> is_ascii_bytes(final(out)@),
{
    push_decimal(out, o[at] as u64);
    push_ascii(out, 0x2E);
    push_decimal(out, o[at + 1] as u64);
    push_ascii(out, 0x2E);
    push_decimal(out, o[at + 2] as u64);
    push_ascii(out, 0x2E);
    push_decimal(out, o[at + 3] as u64);
    assert(out@ =~= old(out)@ + ipv4_bytes(o@.subrange(at as int, at + 4)));
}

/// The 16-bit segment `i` of an IPv6 address.
fn segment_at(o: &[u8; 16], i: usize) -> (s: u16)
    requires
        i < 8,
    ensures
        s == segment(o@, i as int),
{
    let hi: u16 = o[2 * i] as u16;
    let lo: u16 = o[2 * i + 1] as u16;
    0x100 * hi + lo
}

/// How many zero segments follow one another from segment `start` on.
fn zero_run_from(o: &[u8; 16], start: usize) -> (n: usize)
    requires
        start <= 8,
    ensures
        n == zero_run(o@, start as int),
        start + n <= 8,
{
    let mut k: usize = start;
    while k < 8 && segment_at(o, k) == 0
        invariant
            start <= k <= 8,
            zero_run(o@, start as int) == (k - start) + zero_run(o@, k as int),
        decreases 8 - k,
    {
        k += 1;
    }
    k - start
}

/// Appends the segments from `from` up to `to`, with colons between them.
fn push_segments(out: &mut Vec<u8>, o: &[u8; 16], from: usize, to: usize)
    requires
        from <= to <= 8,
    ensures
        final(out)@ == old(out)@ + segments_bytes(o@, from as int, to as int),
        is_ascii_bytes(old(out)@) ==> is_ascii_bytes(final(out)@),
{
    let mut k: usize = from;
    assert(out@ =~= old(out)@ + segments_bytes(o@, from as int, from as int));
    while k < to
        invariant
            from <= k <= to,
            to <= 8,
            out@ == old(out)@ + segments_bytes(o@, from as int, k as int),
            is_ascii_bytes(old(out)@) ==> is_ascii_bytes(out@),
        decreases to - k,
    {
        let ghost before = out@;
        if k > from {
            push_ascii(out, 0x3A);
        }
        push_hex(out, segment_at(o, k));
        assert(out@ =~= old(out)@ + segments_bytes(o@, from as int, k + 1));
        k += 1;
    }
}

impl PeerAddress {
    /// The endpoint in text, as ASCII bytes.
    pub fn to_text_bytes(&self) -> (out: Vec<u8>)
        ensures
            out@ == self@.text_bytes(),
            is_ascii_bytes(out@),
    {
        let mut out: Vec<u8> = Vec::new();
        match &self.ip {
            IpAddress::V4(o) => {
                push_ipv4(&mut out, o.as_slice(), 0);
                assert(o@.subrange(0, 4) =~= o@);
                push_ascii(&mut out, 0x3A);
            },
            IpAddress::V6(o) => {
                push_ascii(&mut out, 0x5B);
                let mapped: IpAddress = IpAddress::from_wire16(o.as_slice(), 0);
                assert(o@.subrange(0, 16) =~= o@);
                match mapped {
                    IpAddress::V4(_) => {
                        push_ascii(&mut out, 0x3A);
                        push_ascii(&mut out, 0x3A);
                        push_ascii(&mut out, 0x66);
                        push_ascii(&mut out, 0x66);
                        push_ascii(&mut out, 0x66);
                        push_ascii(&mut out, 0x66);
                        push_ascii(&mut out, 0x3A);
                        push_ipv4(&mut out, o.as_slice(), 12);
                        assert(out@ =~= seq![0x5Bu8] + ipv6_bytes(o@));
                    },
                    IpAddress::V6(_) => {
                        let mut start: usize = 0;
                        let mut len: usize = 0;
                        let mut k: usize = 0;
                        while k < 8
                            invariant
                                k <= 8,
                                start + len <= 8,
                                (start as int, len as int) == longest_zero_run(o@, k as int),
                            decreases 8 - k,
                        {
                            let here: usize = zero_run_from(o, k);
                            if here > len {
                                start = k;
                                len = here;
                            }
                            k += 1;
                        }
                        if len > 1 {
                            push_segments(&mut out, o, 0, start);
                            push_ascii(&mut out, 0x3A);
                            push_ascii(&mut out, 0x3A);
                            push_segments(&mut out, o, start + len, 8);
                        } else {
                            push_segments(&mut out, o, 0, 8);
                        }
                        assert(out@ =~= seq![0x5Bu8] + ipv6_bytes(o@));
                    },
                }
                push_ascii(&mut out, 0x5D);
                push_ascii(&mut out, 0x3A);
            },
        }
        push_decimal(&mut out, self.port as u64);
        assert(out@ =~= self@.text_bytes());
        out
    }

    /// The endpoint in text: `a.b.c.d:port`, or `[ipv6]:port`.
    pub fn to_text(&self) -> (text: String)
        ensures
            text@ == self@.text(),
    {
        let bytes: Vec<u8> = self.to_text_bytes();
        ascii_string(bytes.as_slice())
    }
}

} // verus!
