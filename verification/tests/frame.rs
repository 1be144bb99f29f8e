use bitcoin_client::p2p::frame::{
    check_header, check_payload, decode_frame, encode_message, FrameError,
};
use bitcoin_client::p2p::messageheader::{checksum_of, MessageHeader};
use bitcoin_client::p2p::utils::{sha256d, MAGIC};

fn verack_frame() -> Vec<u8> {
    let mut bytes = vec![0xF9, 0xBE, 0xB4, 0xD9];
    bytes.extend_from_slice(b"verack\0\0\0\0\0\0");
    bytes.extend_from_slice(&[0, 0, 0, 0]);
    bytes.extend_from_slice(&[0x5D, 0xF6, 0xE0, 0xE2]);
    bytes
}

#[test]
fn header_of_an_empty_verack() {
    let header = MessageHeader::new("verack", &[]);
    assert_eq!(header.magic, MAGIC);
    assert_eq!(header.magic, [0xF9, 0xBE, 0xB4, 0xD9]);
    assert_eq!(&header.command, b"verack\0\0\0\0\0\0");
    assert_eq!(header.payload_size, 0);
    assert_eq!(header.checksum, [0x5D, 0xF6, 0xE0, 0xE2]);
    assert_eq!(header.to_bytes(), verack_frame());
    assert_eq!(header.command_str(), "verack");
}

#[test]
fn header_round_trips() {
    let payload: Vec<u8> = (0..=65535u32).map(|i| (i % 251) as u8).collect();
    let names = ["", "a", "ping", "sendheaders", "twelve_bytes"];
    for name in names {
        let header = MessageHeader::new(name, &payload);
        let bytes = header.to_bytes();
        assert_eq!(bytes.len(), 24);
        let back = MessageHeader::from_bytes(&bytes).unwrap();
        assert_eq!(back.magic, header.magic);
        assert_eq!(back.command, header.command);
        assert_eq!(back.payload_size, 65536);
        assert_eq!(back.checksum, header.checksum);
        assert_eq!(back.command_str(), name);
        assert_eq!(&header.checksum[..], &sha256d(&payload)[..4]);
        assert_eq!(&bytes[16..20], &[0x00, 0x00, 0x01, 0x00]);
    }
}

#[test]
fn header_needs_twenty_four_bytes() {
    let bytes = verack_frame();
    assert!(MessageHeader::from_bytes(&bytes[..23]).is_none());
    assert!(MessageHeader::from_bytes(&[]).is_none());
    let mut longer = bytes.clone();
    longer.push(0x99);
    assert!(MessageHeader::from_bytes(&longer).is_some());
}

#[test]
fn header_reads_any_magic() {
    let mut bytes = verack_frame();
    bytes[0] = 0;
    let header = MessageHeader::from_bytes(&bytes).unwrap();
    assert_eq!(header.magic, [0x00, 0xBE, 0xB4, 0xD9]);
}

#[test]
fn command_text_drops_trailing_nuls_only() {
    let mut bytes = verack_frame();
    bytes[4..16].copy_from_slice(b"ab\0cd\0\0\0\0\0\0\0");
    let header = MessageHeader::from_bytes(&bytes).unwrap();
    assert_eq!(header.command_bytes(), b"ab\0cd".to_vec());
    assert_eq!(header.command_str(), "ab\0cd");
    bytes[4..16].copy_from_slice(&[0u8; 12]);
    let header = MessageHeader::from_bytes(&bytes).unwrap();
    assert_eq!(header.command_str(), "");
}

#[test]
fn command_text_replaces_what_is_not_utf8() {
    let mut bytes = verack_frame();
    bytes[4..16].copy_from_slice(&[b'a', 0xFF, b'b', 0, 0, 0, 0, 0, 0, 0, 0, 0]);
    let header = MessageHeader::from_bytes(&bytes).unwrap();
    assert_eq!(header.command_str(), "a\u{FFFD}b");
}

#[test]
fn framed_message_is_header_then_payload() {
    let bytes = encode_message("verack", &[]);
    assert_eq!(bytes, verack_frame());
    let ping = encode_message("ping", &[1, 2, 3, 4, 5, 6, 7, 8]);
    assert_eq!(ping.len(), 32);
    assert_eq!(&ping[4..16], b"ping\0\0\0\0\0\0\0\0");
    assert_eq!(&ping[16..20], &[8, 0, 0, 0]);
    assert_eq!(&ping[20..24], &sha256d(&[1, 2, 3, 4, 5, 6, 7, 8])[..4]);
    assert_eq!(&ping[24..], &[1, 2, 3, 4, 5, 6, 7, 8]);
}

#[test]
fn frame_round_trips() {
    let payload = vec![9u8; 1000];
    let mut bytes = encode_message("inv", &payload);
    bytes.extend_from_slice(&[1, 2, 3]);
    let (header, body) = decode_frame(&bytes).unwrap();
    assert_eq!(header.command_str(), "inv");
    assert_eq!(header.payload_size, 1000);
    assert_eq!(body, payload);
}

#[test]
fn frame_with_altered_magic_is_rejected() {
    for at in 0..4 {
        let mut bytes = encode_message("ping", &[1, 2, 3, 4, 5, 6, 7, 8]);
        bytes[at] ^= 0x01;
        assert_eq!(decode_frame(&bytes).err(), Some(FrameError::InvalidMagic));
        assert_eq!(check_header(&bytes).err(), Some(FrameError::InvalidMagic));
    }
}

#[test]
fn frame_with_altered_checksum_is_rejected() {
    for at in 20..24 {
        let mut bytes = encode_message("ping", &[1, 2, 3, 4, 5, 6, 7, 8]);
        bytes[at] ^= 0x80;
        assert_eq!(decode_frame(&bytes).err(), Some(FrameError::InvalidChecksum));
    }
    let mut bytes = encode_message("ping", &[1, 2, 3, 4, 5, 6, 7, 8]);
    bytes[30] ^= 0x01;
    assert_eq!(decode_frame(&bytes).err(), Some(FrameError::InvalidChecksum));
}

#[test]
fn empty_frame_with_altered_checksum_is_rejected() {
    let mut bytes = verack_frame();
    bytes[23] = 0;
    assert_eq!(decode_frame(&bytes).err(), Some(FrameError::InvalidChecksum));
}

#[test]
fn frame_cut_short_is_rejected() {
    let bytes = encode_message("ping", &[1, 2, 3, 4, 5, 6, 7, 8]);
    for keep in 0..24 {
        assert_eq!(decode_frame(&bytes[..keep]).err(), Some(FrameError::TruncatedHeader));
    }
    for keep in 24..32 {
        assert_eq!(decode_frame(&bytes[..keep]).err(), Some(FrameError::TruncatedPayload));
    }
    assert!(decode_frame(&bytes).is_ok());
}

#[test]
fn magic_is_checked_before_length_and_checksum() {
    let mut bytes = encode_message("ping", &[1, 2, 3, 4, 5, 6, 7, 8]);
    bytes[0] = 0;
    bytes[20] ^= 1;
    assert_eq!(decode_frame(&bytes[..26]).err(), Some(FrameError::InvalidMagic));
}

#[test]
fn payload_is_checked_against_its_header() {
    let bytes = encode_message("addr", &[5, 6, 7]);
    let header = check_header(&bytes[..24]).unwrap();
    assert_eq!(check_payload(&header, &[5, 6, 7]), Ok(()));
    assert_eq!(check_payload(&header, &[5, 6]), Err(FrameError::TruncatedPayload));
    assert_eq!(check_payload(&header, &[5, 6, 7, 8]), Err(FrameError::TruncatedPayload));
    assert_eq!(check_payload(&header, &[5, 6, 8]), Err(FrameError::InvalidChecksum));
}

#[test]
fn checksum_is_the_first_four_bytes_of_the_digest() {
    let mut digest = [0u8; 32];
    for i in 0..32 {
        digest[i] = 0xA0 + i as u8;
    }
    assert_eq!(checksum_of(&digest), [0xA0, 0xA1, 0xA2, 0xA3]);
    assert_eq!(checksum_of(&sha256d(&[])), [0x5D, 0xF6, 0xE0, 0xE2]);
}
