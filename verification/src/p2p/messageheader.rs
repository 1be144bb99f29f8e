//! The 24-byte header that frames every message.

use vstd::prelude::*;
use vstd::string::StringSliceAdditionalSpecFns;

use crate::p2p::bytes::{
    le_u32_at, lemma_u32_le_round_trip, push_bytes, push_u32_le, read_u32_le, u32_le,
};
use crate::p2p::text::{spec_utf8_lossy, utf8_lossy};
use crate::p2p::utils::{sha256d, spec_sha256d, MAGIC};

verus! {

/// The header of a message: network magic, command, payload length and
/// payload checksum.
#[derive(Debug)]
pub struct MessageHeader {
    pub magic: [u8; 4],
    pub command: [u8; 12],
    pub payload_size: u32,
    pub checksum: [u8; 4],
}

/// A header as a mathematical value.
pub ghost struct HeaderFields {
    pub magic: Seq<u8>,
    pub command: Seq<u8>,
    pub payload_size: u32,
    pub checksum: Seq<u8>,
}

impl View for MessageHeader {
    type V = HeaderFields;

    open spec fn view(&self) -> HeaderFields {
        HeaderFields {
            magic: self.magic@,
            command: self.command@,
            payload_size: self.payload_size,
            checksum: self.checksum@,
        }
    }
}

impl HeaderFields {
    /// The 24 bytes of the header on the wire.
    pub open spec fn wire(self) -> Seq<u8> {
        self.magic + self.command + u32_le(self.payload_size) + self.checksum
    }

    /// Whether the fields have the widths that the wire format gives them.
    pub open spec fn well_formed(self) -> bool {
        self.magic.len() == 4 && self.command.len() == 12 && self.checksum.len() == 4
    }
}

/// The checksum of a payload: the first four bytes of its double SHA-256.
pub open spec fn spec_checksum(payload: Seq<u8>) -> Seq<u8> {
    Seq::new(4, |i: int| spec_sha256d(payload)[i])
}

/// The command field for `name`: the bytes of the name, then NUL bytes up to
/// twelve.
pub open spec fn padded_command(name: Seq<u8>) -> Seq<u8> {
    Seq::new(
        12,
        |i: int|
            if i < name.len() {
                name[i]
            } else {
                0u8
            },
    )
}

/// The number of bytes that remain of `s` once its trailing NUL bytes are
/// dropped.
pub open spec fn trimmed_len(s: Seq<u8>) -> nat
    decreases s.len(),
{
    if s.len() == 0 {
        0
    } else if s.last() != 0 {
        s.len()
    } else {
        trimmed_len(s.drop_last())
    }
}

/// `s` without its trailing NUL bytes.
pub open spec fn trim_trailing_nuls(s: Seq<u8>) -> Seq<u8> {
    s.take(trimmed_len(s) as int)
}

/// The header that the first 24 bytes of `data` hold, if there are as many.
pub open spec fn header_of(data: Seq<u8>) -> Option<HeaderFields> {
    if data.len() < 24 {
        None
    } else {
        Some(
            HeaderFields {
                magic: data.subrange(0, 4),
                command: data.subrange(4, 16),
                payload_size: le_u32_at(data, 16) as u32,
                checksum: data.subrange(20, 24),
            },
        )
    }
}

/// The checksum that a double SHA-256 digest gives: its first four bytes.
pub fn checksum_of(digest: &[u8; 32]) -> (checksum: [u8; 4])
    ensures
        checksum@ == digest@.take(4),
{
    let checksum: [u8; 4] = [digest[0], digest[1], digest[2], digest[3]];
    assert(checksum@ =~= digest@.take(4));
    checksum
}

/// Copies four bytes starting at `at`.
fn read_4(data: &[u8], at: usize) -> (out: [u8; 4])
    requires
        at + 4 <= data@.len(),
    ensures
        out@ == data@.subrange(at as int, at + 4),
{
    let out: [u8; 4] = [data[at], data[at + 1], data[at + 2], data[at + 3]];
    assert(out@ =~= data@.subrange(at as int, at + 4));
    out
}

impl MessageHeader {
    /// The header of a message with the given command and payload.
    ///
    /// The command must fit the 12-byte field. The length field holds the
    /// payload's length modulo 2^32.
    pub fn new(command: &str, payload: &[u8]) -> (header: Self)
        requires
            command.spec_bytes().len() <= 12,
        ensures
            header.magic == MAGIC,
            header.command@ == padded_command(command.spec_bytes()),
            header.payload_size == payload@.len() % 0x1_0000_0000,
            header.checksum@ == spec_checksum(payload@),
    {
        let name: &[u8] = command.as_bytes();
        let name_len: usize = name.len();
        let mut cmd_bytes: [u8; 12] = [0u8; 12];
        let mut i: usize = 0;
        while i < name_len
            invariant
                i <= name_len,
                name_len == name@.len(),
                name_len <= 12,
                forall|j: int| 0 <= j < i ==> cmd_bytes@[j] == name@[j],
                forall|j: int| i <= j < 12 ==> cmd_bytes@[j] == 0,
            decreases name_len - i,
        {
            cmd_bytes[i] = name[i];
            i += 1;
        }
        assert(cmd_bytes@ =~= padded_command(name@));
        let digest: [u8; 32] = sha256d(payload);
        let checksum_bytes: [u8; 4] = checksum_of(&digest);
        assert(checksum_bytes@ =~= spec_checksum(payload@));
        let size: u64 = payload.len() as u64 % 0x1_0000_0000;
        MessageHeader {
            magic: MAGIC,
            command: cmd_bytes,
            payload_size: size as u32,
            checksum: checksum_bytes,
        }
    }

    /// The 24 bytes of this header on the wire.
    pub fn to_bytes(&self) -> (bytes: Vec<u8>)
        ensures
            bytes@ == self@.wire(),
            bytes@.len() == 24,
    {
        let mut bytes: Vec<u8> = Vec::new();
        push_bytes(&mut bytes, self.magic.as_slice());
        push_bytes(&mut bytes, self.command.as_slice());
        push_u32_le(&mut bytes, self.payload_size);
        push_bytes(&mut bytes, self.checksum.as_slice());
        assert(bytes@ =~= self@.wire());
        bytes
    }

    /// Reads a header from the first 24 bytes of `data`; `None` if there are
    /// fewer.
    pub fn from_bytes(data: &[u8]) -> (header: Option<Self>)
        ensures
            header is Some <==> data@.len() >= 24,
            header matches Some(h) ==> header_of(data@) == Some(h@),
    {
        if data.len() < 24 {
            return None;
        }
        let magic: [u8; 4] = read_4(data, 0);
        let mut command: [u8; 12] = [0u8; 12];
        let mut i: usize = 0;
        while i < 12
            invariant
                i <= 12,
                data@.len() >= 24,
                forall|j: int| 0 <= j < i ==> command@[j] == data@[4 + j],
            decreases 12 - i,
        {
            command[i] = data[4 + i];
            i += 1;
        }
        assert(command@ =~= data@.subrange(4, 16));
        let payload_size: u32 = read_u32_le(data, 16);
        let checksum: [u8; 4] = read_4(data, 20);
        Some(MessageHeader { magic, command, payload_size, checksum })
    }

    /// The command's bytes: the field without its trailing NUL bytes.
    pub fn command_bytes(&self) -> (name: Vec<u8>)
        ensures
            name@ == trim_trailing_nuls(self.command@),
    {
        let mut end: usize = 12;
        assert(self.command@.take(12) =~= self.command@);
        while end > 0 && self.command[end - 1] == 0
            invariant
                end <= 12,
                trimmed_len(self.command@) == trimmed_len(self.command@.take(end as int)),
            decreases end,
        {
            assert(self.command@.take(end as int).drop_last() =~= self.command@.take(end - 1));
            end -= 1;
        }
        assert(trimmed_len(self.command@) == end);
        let mut name: Vec<u8> = Vec::new();
        let mut i: usize = 0;
        while i < end
            invariant
                i <= end,
                end <= 12,
                name@ == self.command@.take(i as int),
            decreases end - i,
        {
            name.push(self.command[i]);
            assert(self.command@.take(i as int).push(self.command@[i as int])
                =~= self.command@.take(i + 1));
            i += 1;
        }
        name
    }

    /// The command as text: the field without its trailing NUL bytes, with
    /// U+FFFD in place of whatever is not UTF-8.
    pub fn command_str(&self) -> (text: String)
        ensures
            text@ == spec_utf8_lossy(trim_trailing_nuls(self.command@)),
    {
        let name: Vec<u8> = self.command_bytes();
        utf8_lossy(name.as_slice())
    }
}

/// Round trip: the header read from the bytes written for `h`, whatever
/// follows them, is `h`.
pub proof fn lemma_header_round_trip(h: HeaderFields, rest: Seq<u8>)
    requires
        h.well_formed(),
    ensures
        h.wire().len() == 24,
        header_of(h.wire() + rest) == Some(h),
{
    let data = h.wire() + rest;
    lemma_u32_le_round_trip(h.payload_size);
    assert(data.subrange(0, 4) =~= h.magic);
    assert(data.subrange(4, 16) =~= h.command);
    assert(data.subrange(20, 24) =~= h.checksum);
    assert(data[16] == u32_le(h.payload_size)[0]);
    assert(data[17] == u32_le(h.payload_size)[1]);
    assert(data[18] == u32_le(h.payload_size)[2]);
    assert(data[19] == u32_le(h.payload_size)[3]);
}

} // verus!
