use blemesh::protocol::{
    hex_encode, DecodeError, Packet, DEFAULT_TTL, HEADER_SIZE, MAX_PACKET_SIZE,
};

fn id() -> [u8; 16] {
    [
        0x00, 0x01, 0x0f, 0x10, 0x7f, 0x80, 0xab, 0xcd, 0xef, 0xff, 0x0a, 0x0b, 0x0c, 0x0d, 0x0e,
        0x99,
    ]
}

#[test]
fn roundtrip() {
    let p = Packet::new("alice", "hello mesh");
    let enc = p.encode().unwrap();
    let dec = Packet::decode(&enc).unwrap();
    assert_eq!(p, dec);
}

#[test]
fn ttl_decrement() {
    let mut p = Packet::new("bob", "hi");
    p.ttl = 1;
    let next = p.with_decremented_ttl().unwrap();
    assert_eq!(next.ttl, 0);
    assert!(next.with_decremented_ttl().is_none());
}

#[test]
fn constants() {
    assert_eq!(MAX_PACKET_SIZE, 400);
    assert_eq!(DEFAULT_TTL, 7);
    assert_eq!(HEADER_SIZE, 18);
}

#[test]
fn new_packet_has_random_id_and_default_ttl() {
    let a = Packet::new("alice", "x");
    let b = Packet::new("alice", "x");
    assert_ne!(a.msg_id, b.msg_id);
    assert_eq!(a.msg_id[6] >> 4, 4);
    assert_eq!(a.msg_id[8] >> 6, 2);
    assert_eq!(a.ttl, 7);
    assert_eq!(a.sender, "alice");
    assert_eq!(a.payload, "x");
}

#[test]
fn exact_bytes() {
    let p = Packet::with_id(id(), "bob", "h\u{e9}");
    let mut want = id().to_vec();
    want.extend_from_slice(&[7, 3, b'b', b'o', b'b', 3, 0, b'h', 0xc3, 0xa9]);
    assert_eq!(p.encode().unwrap(), want);
}

#[test]
fn payload_length_is_little_endian() {
    let p = Packet::with_id(id(), "", &"x".repeat(300));
    let bytes = p.encode().unwrap();
    assert_eq!(bytes.len(), 320);
    assert_eq!(bytes[17], 0);
    assert_eq!(&bytes[18..20], &[44, 1]);
    assert_eq!(Packet::decode(&bytes).unwrap(), p);
}

#[test]
fn empty_fields() {
    let p = Packet::with_id([0; 16], "", "");
    let bytes = p.encode().unwrap();
    assert_eq!(bytes.len(), 20);
    assert_eq!(Packet::decode(&bytes).unwrap(), p);
}

#[test]
fn size_cap() {
    let fits = Packet::with_id(id(), "alice", &"x".repeat(375));
    assert_eq!(fits.encode().unwrap().len(), 400);
    let too_big = Packet::with_id(id(), "alice", &"x".repeat(376));
    assert_eq!(
        too_big.encode(),
        Err("encoded packet exceeds MAX_PACKET_SIZE")
    );
}

#[test]
fn long_sender_and_payload() {
    let p = Packet::with_id(id(), &"s".repeat(256), "x");
    assert_eq!(p.encode(), Err("sender name too long"));
    let p = Packet::with_id(id(), "s", &"x".repeat(65536));
    assert_eq!(p.encode(), Err("payload too long"));
    let p = Packet::with_id(id(), &"s".repeat(256), &"x".repeat(65536));
    assert_eq!(p.encode(), Err("sender name too long"));
    let p = Packet::with_id(id(), &"s".repeat(255), &"x".repeat(65535));
    assert_eq!(p.encode(), Err("encoded packet exceeds MAX_PACKET_SIZE"));
}

#[test]
fn trailing_bytes_are_ignored() {
    let p = Packet::with_id(id(), "a", "b");
    let mut bytes = p.encode().unwrap();
    bytes.extend_from_slice(b"junk");
    let q = Packet::decode(&bytes).unwrap();
    assert_eq!(q, p);
    assert_eq!(q.encode().unwrap(), bytes[..22].to_vec());
}

#[test]
fn oversized_packet_decodes_but_does_not_encode() {
    let mut bytes = id().to_vec();
    bytes.extend_from_slice(&[3, 0, 200, 1]);
    bytes.extend_from_slice(&[b'x'; 456]);
    let p = Packet::decode(&bytes).unwrap();
    assert_eq!(p.payload.len(), 456);
    assert!(p.encode().is_err());
}

#[test]
fn decode_errors() {
    let good = Packet::with_id(id(), "alice", "hi").encode().unwrap();
    assert!(matches!(Packet::decode(&[]), Err(DecodeError::TooShort)));
    assert!(matches!(
        Packet::decode(&good[..17]),
        Err(DecodeError::TooShort)
    ));
    assert!(matches!(
        Packet::decode(&good[..18]),
        Err(DecodeError::BadSenderLen)
    ));
    assert!(matches!(
        Packet::decode(&good[..24]),
        Err(DecodeError::BadSenderLen)
    ));
    assert!(matches!(
        Packet::decode(&good[..25]),
        Err(DecodeError::BadPayloadLen)
    ));
    assert!(matches!(
        Packet::decode(&good[..26]),
        Err(DecodeError::BadPayloadLen)
    ));
    let mut bad = good.clone();
    bad[18] = 0xff;
    assert!(matches!(Packet::decode(&bad), Err(DecodeError::Utf8)));
    let mut bad = good.clone();
    bad[25] = 0xc3;
    bad[26] = 0x28;
    assert!(matches!(Packet::decode(&bad), Err(DecodeError::Utf8)));
    let mut bad = good.clone();
    bad[18] = 0xff;
    assert!(matches!(Packet::decode(&bad[..25]), Err(DecodeError::Utf8)));
}

#[test]
fn hex_of_id() {
    let p = Packet::with_id(id(), "a", "b");
    assert_eq!(p.msg_id_hex(), "00010f107f80abcdefff0a0b0c0d0e99");
    assert_eq!(hex_encode(&[]), "");
    assert_eq!(hex_encode(&[0x5a]), "5a");
}

#[test]
fn seven_hops() {
    let mut p = Packet::with_id(id(), "a", "b");
    for left in (0..7u8).rev() {
        p = p.with_decremented_ttl().unwrap();
        assert_eq!(p.ttl, left);
        assert_eq!(p.payload, "b");
    }
    assert!(p.with_decremented_ttl().is_none());
}

#[test]
fn clone_is_equal() {
    let p = Packet::with_id(id(), "a", "b");
    assert_eq!(p.clone(), p);
}
