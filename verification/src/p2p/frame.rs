//! Whole messages on the wire: a header, then the payload it describes.

use vstd::prelude::*;
use vstd::slice::{slice_subrange, slice_to_vec};
use vstd::string::StringSliceAdditionalSpecFns;

use crate::p2p::bytes::push_bytes;
use crate::p2p::messageheader::{
    checksum_of, header_of, lemma_header_round_trip, padded_command, spec_checksum,
    HeaderFields, MessageHeader,
};
use crate::p2p::text::bytes_eq;
use crate::p2p::utils::{sha256d, MAGIC};

verus! {

/// Why a frame was rejected.
#[derive(Debug, Clone, Copy, PartialEq, Eq, Structural)]
pub enum FrameError {
    /// Fewer than 24 bytes where a header is expected.
    TruncatedHeader,
    /// The first four bytes are not the network magic.
    InvalidMagic,
    /// Fewer payload bytes than the header announces.
    TruncatedPayload,
    /// The checksum in the header is not that of the payload.
    InvalidChecksum,
}

/// The header of a message with command bytes `name` and the given payload.
pub open spec fn header_for(name: Seq<u8>, payload: Seq<u8>) -> HeaderFields {
    HeaderFields {
        magic: MAGIC@,
        command: padded_command(name),
        payload_size: (payload.len() % 0x1_0000_0000) as u32,
        checksum: spec_checksum(payload),
    }
}

/// A message on the wire: its header, then its payload.
pub open spec fn message_wire(name: Seq<u8>, payload: Seq<u8>) -> Seq<u8> {
    header_for(name, payload).wire() + payload
}

/// What the header at the start of a frame is found to be: the header, or
/// the reason why the frame cannot be read.
pub open spec fn checked_header(data: Seq<u8>) -> Result<HeaderFields, FrameError> {
    match header_of(data) {
        None => Err(FrameError::TruncatedHeader),
        Some(h) => if h.magic != MAGIC@ {
            Err(FrameError::InvalidMagic)
        } else {
            Ok(h)
        },
    }
}

/// Whether `payload` is what `h` announces: the reason why not, if it is
/// not.
pub open spec fn checked_payload(h: HeaderFields, payload: Seq<u8>) -> Result<(), FrameError> {
    if payload.len() != h.payload_size {
        Err(FrameError::TruncatedPayload)
    } else if h.checksum != spec_checksum(payload) {
        Err(FrameError::InvalidChecksum)
    } else {
        Ok(())
    }
}

/// What a buffer that starts with a frame decodes to: the header and the
/// payload, or the reason for rejecting it. The magic is checked first, then
/// the length, then the checksum.
pub open spec fn decoded_frame(data: Seq<u8>) -> Result<(HeaderFields, Seq<u8>), FrameError> {
    match checked_header(data) {
        Err(e) => Err(e),
        Ok(h) => if data.len() - 24 < h.payload_size {
            Err(FrameError::TruncatedPayload)
        } else {
            let payload = data.subrange(24, 24 + h.payload_size);
            match checked_payload(h, payload) {
                Err(e) => Err(e),
                Ok(_) => Ok((h, payload)),
            }
        },
    }
}

/// Frames a message: the header for `command` and `payload`, then the
/// payload. The command must fit the header's 12-byte field.
pub fn encode_message(command: &str, payload: &[u8]) -> (bytes: Vec<u8>)
    requires
        command.spec_bytes().len() <= 12,
    ensures
        bytes@ == message_wire(command.spec_bytes(), payload@),
{
    let header: MessageHeader = MessageHeader::new(command, payload);
    let mut bytes: Vec<u8> = header.to_bytes();
    push_bytes(&mut bytes, payload);
    assert(header@ == header_for(command.spec_bytes(), payload@));
    bytes
}

/// Reads and checks the header at the start of `data`.
pub fn check_header(data: &[u8]) -> (r: Result<MessageHeader, FrameError>)
    ensures
        match r {
            Ok(h) => checked_header(data@) == Ok::<HeaderFields, FrameError>(h@),
            Err(e) => checked_header(data@) == Err::<HeaderFields, FrameError>(e),
        },
{
    match MessageHeader::from_bytes(data) {
        None => Err(FrameError::TruncatedHeader),
        Some(header) => {
            if !bytes_eq(header.magic.as_slice(), MAGIC.as_slice()) {
                Err(FrameError::InvalidMagic)
            } else {
                Ok(header)
            }
        },
    }
}

/// Checks a payload against the header that came before it.
pub fn check_payload(header: &MessageHeader, payload: &[u8]) -> (r: Result<(), FrameError>)
    ensures
        r == checked_payload(header@, payload@),
{
    if payload.len() as u64 != header.payload_size as u64 {
        return Err(FrameError::TruncatedPayload);
    }
    let digest: [u8; 32] = sha256d(payload);
    let computed: [u8; 4] = checksum_of(&digest);
    assert(computed@ =~= spec_checksum(payload@));
    if !bytes_eq(header.checksum.as_slice(), computed.as_slice()) {
        return Err(FrameError::InvalidChecksum);
    }
    Ok(())
}

/// Decodes the frame at the start of `data`.
pub fn decode_frame(data: &[u8]) -> (r: Result<(MessageHeader, Vec<u8>), FrameError>)
    ensures
        match r {
            Ok((h, payload)) => decoded_frame(data@) == Ok::<
                (HeaderFields, Seq<u8>),
                FrameError,
            >((h@, payload@)),
            Err(e) => decoded_frame(data@) == Err::<(HeaderFields, Seq<u8>), FrameError>(e),
        },
{
    let header: MessageHeader = match check_header(data) {
        Err(e) => {
            return Err(e);
        },
        Ok(h) => h,
    };
    let size: u64 = header.payload_size as u64;
    if ((data.len() - 24) as u64) < size {
        return Err(FrameError::TruncatedPayload);
    }
    let size: usize = header.payload_size as usize;
    let body: &[u8] = slice_subrange(data, 24, 24 + size);
    match check_payload(&header, body) {
        Err(e) => Err(e),
        Ok(_) => Ok((header, slice_to_vec(body))),
    }
}

/// Round trip: a framed message, whatever follows it, decodes to its header
/// and its payload.
pub proof fn lemma_frame_round_trip(name: Seq<u8>, payload: Seq<u8>, rest: Seq<u8>)
    requires
        payload.len() < 0x1_0000_0000,
    ensures
        decoded_frame(message_wire(name, payload) + rest) == Ok::<
            (HeaderFields, Seq<u8>),
            FrameError,
        >((header_for(name, payload), payload)),
{
    let h = header_for(name, payload);
    let data = message_wire(name, payload) + rest;
    assert(MAGIC@.len() == 4);
    lemma_header_round_trip(h, payload + rest);
    assert(data =~= h.wire() + (payload + rest));
    assert(data.subrange(24, 24 + h.payload_size) =~= payload);
}

/// A frame whose magic was altered is rejected for its magic.
pub proof fn lemma_altered_magic_rejected(h: HeaderFields, payload: Seq<u8>)
    requires
        h.well_formed(),
        h.magic != MAGIC@,
    ensures
        decoded_frame(h.wire() + payload) == Err::<(HeaderFields, Seq<u8>), FrameError>(
            FrameError::InvalidMagic,
        ),
{
    lemma_header_round_trip(h, payload);
}

/// A whole frame whose checksum is not that of its payload is rejected for
/// its checksum.
pub proof fn lemma_altered_checksum_rejected(h: HeaderFields, payload: Seq<u8>)
    requires
        h.well_formed(),
        h.magic == MAGIC@,
        h.payload_size == payload.len(),
        h.checksum != spec_checksum(payload),
    ensures
        decoded_frame(h.wire() + payload) == Err::<(HeaderFields, Seq<u8>), FrameError>(
            FrameError::InvalidChecksum,
        ),
{
    lemma_header_round_trip(h, payload);
    assert((h.wire() + payload).subrange(24, 24 + h.payload_size) =~= payload);
}

/// A frame cut short is rejected: within the header as a truncated header,
/// within the payload as a truncated payload.
pub proof fn lemma_truncated_frame_rejected(h: HeaderFields, payload: Seq<u8>, keep: int)
    requires
        h.well_formed(),
        h.magic == MAGIC@,
        h.payload_size == payload.len(),
        0 <= keep < 24 + payload.len(),
    ensures
        decoded_frame((h.wire() + payload).take(keep)) == Err::<
            (HeaderFields, Seq<u8>),
            FrameError,
        >(
            if keep < 24 {
                FrameError::TruncatedHeader
            } else {
                FrameError::TruncatedPayload
            },
        ),
{
    lemma_header_round_trip(h, payload);
    let cut = (h.wire() + payload).take(keep);
    if keep >= 24 {
        lemma_header_round_trip(h, payload.take(keep - 24));
        assert(cut =~= h.wire() + payload.take(keep - 24));
    }
}

} // verus!
