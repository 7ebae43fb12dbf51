//! The validation boundary: over-limit sizes, boundary timestamps, tampered
//! checksums, truncation, unknown commands and the addrv2 skip policy.

use sha2::Digest;
use zebra_wire::codec::encode;
use zebra_wire::decode::decode;
use zebra_wire::message::{
    reject_from_error, InvKind, InventoryHash, Message, RejectReason, MAX_TIMESTAMP,
    MIN_TIMESTAMP,
};
use zebra_wire::wire::{DecodeError, EncodeError};

/// Assemble a frame by hand: magic, zero-padded command, payload length,
/// double-SHA-256 checksum, payload.
fn build_frame(command: &str, payload: &[u8]) -> Vec<u8> {
    let mut out = vec![0x24u8, 0xE9, 0x27, 0x64];
    let mut cmd = command.as_bytes().to_vec();
    cmd.resize(12, 0);
    out.extend_from_slice(&cmd);
    out.extend_from_slice(&(payload.len() as u32).to_le_bytes());
    let d1 = sha2::Sha256::digest(payload);
    let d2 = sha2::Sha256::digest(&d1);
    out.extend_from_slice(&d2[..4]);
    out.extend_from_slice(payload);
    out
}

fn version_payload(timestamp: i64) -> Vec<u8> {
    let mut p = Vec::new();
    p.extend_from_slice(&170_100u32.to_le_bytes());
    p.extend_from_slice(&1u64.to_le_bytes());
    p.extend_from_slice(&(timestamp as u64).to_le_bytes());
    for _ in 0..2 {
        p.extend_from_slice(&1u64.to_le_bytes());
        p.extend_from_slice(&[0u8; 16]);
        p.extend_from_slice(&8233u16.to_be_bytes());
    }
    p.extend_from_slice(&7u64.to_le_bytes());
    p.push(0); // empty user agent
    p.extend_from_slice(&0u32.to_le_bytes());
    p.push(1); // relay
    p
}

#[test]
fn timestamp_at_boundary_decodes() {
    for ts in [MIN_TIMESTAMP, MAX_TIMESTAMP] {
        let frame = build_frame("version", &version_payload(ts));
        match decode(&frame).expect("boundary timestamp must decode") {
            Message::Version { timestamp, .. } => assert_eq!(timestamp, ts),
            _ => panic!("expected a version message"),
        }
    }
}

#[test]
fn timestamp_past_boundary_fails() {
    for ts in [MIN_TIMESTAMP - 1, MAX_TIMESTAMP + 1] {
        let frame = build_frame("version", &version_payload(ts));
        assert_eq!(decode(&frame), Err(DecodeError::TimestampOutOfRange));
    }
}

#[test]
fn timestamp_constants_match_calendar_range() {
    assert!(chrono::DateTime::from_timestamp(MIN_TIMESTAMP, 0).is_some());
    assert!(chrono::DateTime::from_timestamp(MAX_TIMESTAMP, 0).is_some());
    assert!(chrono::DateTime::from_timestamp(MIN_TIMESTAMP - 1, 0).is_none());
    assert!(chrono::DateTime::from_timestamp(MAX_TIMESTAMP + 1, 0).is_none());
}

#[test]
fn encode_rejects_oversized_inventory_list() {
    let invs: Vec<InventoryHash> =
        (0..50_001u32).map(|_| InventoryHash { kind: InvKind::Tx, hash: vec![0u8; 32] }).collect();
    assert_eq!(encode(&Message::Inv(invs)), Err(EncodeError::InvalidMessage));
}

#[test]
fn decode_rejects_oversized_inventory_count() {
    let mut payload = Vec::new();
    payload.extend_from_slice(&[0xFD]);
    payload.extend_from_slice(&50_001u16.to_le_bytes());
    let frame = build_frame("inv", &payload);
    assert_eq!(decode(&frame), Err(DecodeError::CountOverMax));
}

#[test]
fn encode_rejects_oversized_filterload() {
    assert_eq!(
        encode(&Message::FilterLoad {
            filter: vec![0u8; 36_001],
            hash_functions_count: 1,
            tweak: 0,
            flags: 0,
        }),
        Err(EncodeError::InvalidMessage)
    );
    assert_eq!(
        encode(&Message::FilterLoad {
            filter: vec![0u8; 10],
            hash_functions_count: 51,
            tweak: 0,
            flags: 0,
        }),
        Err(EncodeError::InvalidMessage)
    );
}

#[test]
fn decode_rejects_oversized_filterload() {
    let mut payload = Vec::new();
    payload.extend_from_slice(&[0xFD]);
    payload.extend_from_slice(&36_001u16.to_le_bytes());
    payload.extend_from_slice(&vec![0u8; 36_001]);
    payload.extend_from_slice(&1u32.to_le_bytes());
    payload.extend_from_slice(&0u32.to_le_bytes());
    payload.push(0);
    let frame = build_frame("filterload", &payload);
    assert_eq!(decode(&frame), Err(DecodeError::CountOverMax));

    let mut payload = vec![2u8, 0xAA, 0xBB];
    payload.extend_from_slice(&51u32.to_le_bytes());
    payload.extend_from_slice(&0u32.to_le_bytes());
    payload.push(0);
    let frame = build_frame("filterload", &payload);
    assert_eq!(decode(&frame), Err(DecodeError::CountOverMax));
}

#[test]
fn encode_rejects_oversized_filteradd() {
    assert_eq!(
        encode(&Message::FilterAdd { data: vec![0u8; 521] }),
        Err(EncodeError::InvalidMessage)
    );
}

#[test]
fn decode_rejects_oversized_filteradd() {
    let mut payload = Vec::new();
    payload.extend_from_slice(&[0xFD]);
    payload.extend_from_slice(&521u16.to_le_bytes());
    payload.extend_from_slice(&vec![0u8; 521]);
    let frame = build_frame("filteradd", &payload);
    assert_eq!(decode(&frame), Err(DecodeError::CountOverMax));
}

#[test]
fn encode_rejects_oversized_addr_list() {
    let addrs = (0..1001)
        .map(|_| zebra_wire::message::MetaAddr {
            untrusted_last_seen: 0,
            untrusted_services: 0,
            ip: vec![0u8; 16],
            port: 0,
        })
        .collect();
    assert_eq!(encode(&Message::Addr(addrs)), Err(EncodeError::InvalidMessage));
}

#[test]
fn addrv2_skips_unrecognized_address_types() {
    // Two wire entries: one recognized IPv6 entry, one entry of an unknown
    // address type. Decoding yields a one-element list.
    let mut payload = vec![2u8]; // count
    // recognized: time, services varint, network id 2 (IPv6), length 16, addr, port
    payload.extend_from_slice(&100u32.to_le_bytes());
    payload.push(1); // services = 1
    payload.push(2); // network id: IPv6
    payload.push(16);
    let ip = [0x20u8, 1, 0xD, 0xB8, 0, 0, 0, 0, 0, 0, 0, 0, 0, 0, 0, 9];
    payload.extend_from_slice(&ip);
    payload.extend_from_slice(&8233u16.to_be_bytes());
    // unrecognized: network id 4 (TorV3-style), 32-byte address
    payload.extend_from_slice(&200u32.to_le_bytes());
    payload.push(1);
    payload.push(4);
    payload.push(32);
    payload.extend_from_slice(&[0x55u8; 32]);
    payload.extend_from_slice(&1u16.to_be_bytes());

    let frame = build_frame("addrv2", &payload);
    match decode(&frame).expect("a skippable entry must not fail the message") {
        Message::Addr(addrs) => {
            assert_eq!(addrs.len(), 1);
            assert_eq!(addrs[0].untrusted_last_seen, 100);
            assert_eq!(addrs[0].ip, ip.to_vec());
            assert_eq!(addrs[0].port, 8233);
        },
        _ => panic!("expected an addr message"),
    }
}

#[test]
fn addrv2_ipv4_is_mapped() {
    let mut payload = vec![1u8];
    payload.extend_from_slice(&7u32.to_le_bytes());
    payload.push(0); // services = 0
    payload.push(1); // network id: IPv4
    payload.push(4);
    payload.extend_from_slice(&[127, 0, 0, 1]);
    payload.extend_from_slice(&8233u16.to_be_bytes());
    let frame = build_frame("addrv2", &payload);
    match decode(&frame).unwrap() {
        Message::Addr(addrs) => {
            assert_eq!(addrs.len(), 1);
            assert_eq!(
                addrs[0].ip,
                vec![0, 0, 0, 0, 0, 0, 0, 0, 0, 0, 0xFF, 0xFF, 127, 0, 0, 1]
            );
        },
        _ => panic!("expected an addr message"),
    }
}

#[test]
fn addrv2_wrong_length_for_known_type_fails() {
    let mut payload = vec![1u8];
    payload.extend_from_slice(&7u32.to_le_bytes());
    payload.push(0);
    payload.push(2); // IPv6 must be 16 bytes
    payload.push(4);
    payload.extend_from_slice(&[127, 0, 0, 1]);
    payload.extend_from_slice(&8233u16.to_be_bytes());
    let frame = build_frame("addrv2", &payload);
    assert_eq!(decode(&frame), Err(DecodeError::InvalidAddressLength));
}

#[test]
fn checksum_tamper_detection() {
    let samples = vec![
        Message::Verack,
        Message::Ping(7),
        Message::Pong(8),
        Message::GetAddr,
        Message::Mempool,
        Message::FilterClear,
        Message::Tx(vec![1, 2, 3]),
        Message::Block(vec![9, 9]),
        Message::Inv(vec![InventoryHash { kind: InvKind::Block, hash: vec![3u8; 32] }]),
        Message::FilterAdd { data: vec![1] },
    ];
    for m in samples {
        let frame = encode(&m).unwrap();
        for i in 24..frame.len() {
            let mut tampered = frame.clone();
            tampered[i] ^= 0x01;
            assert_eq!(
                decode(&tampered),
                Err(DecodeError::BadChecksum),
                "flipping payload byte {i} must fail the checksum"
            );
        }
    }
}

#[test]
fn truncation_always_fails() {
    let frame = encode(&Message::Ping(0x0102_0304_0506_0708)).unwrap();
    for k in 0..frame.len() {
        let prefix = frame[..k].to_vec();
        assert!(decode(&prefix).is_err(), "prefix of length {k} must not decode");
    }
}

#[test]
fn bad_magic_fails() {
    let mut frame = encode(&Message::Verack).unwrap();
    frame[0] ^= 0xFF;
    assert_eq!(decode(&frame), Err(DecodeError::BadMagic));
}

#[test]
fn unknown_command_fails() {
    let frame = build_frame("boguscmd", &[]);
    assert_eq!(decode(&frame), Err(DecodeError::UnknownCommand));
}

#[test]
fn trailing_bytes_fail() {
    let frame = build_frame("verack", &[0x00]);
    assert_eq!(decode(&frame), Err(DecodeError::LengthMismatch));
}

#[test]
fn non_canonical_count_fails() {
    // count 1 written in the three-byte varint form
    let mut payload = vec![0xFDu8, 1, 0];
    payload.extend_from_slice(&0u32.to_le_bytes());
    payload.extend_from_slice(&[0u8; 32]);
    let frame = build_frame("inv", &payload);
    assert_eq!(decode(&frame), Err(DecodeError::NonCanonicalCount));
}

#[test]
fn unknown_inventory_kind_fails() {
    let mut payload = vec![1u8];
    payload.extend_from_slice(&7u32.to_le_bytes());
    payload.extend_from_slice(&[0u8; 32]);
    let frame = build_frame("inv", &payload);
    assert_eq!(decode(&frame), Err(DecodeError::InvalidInventoryKind));
}

#[test]
fn unknown_reject_code_fails() {
    let mut payload = vec![1u8, b'x'];
    payload.push(0x7F); // no reason has this code
    payload.push(0); // empty reason
    let frame = build_frame("reject", &payload);
    assert_eq!(decode(&frame), Err(DecodeError::InvalidRejectCode));
}

#[test]
fn invalid_utf8_user_agent_fails() {
    let mut p = version_payload(0);
    // user agent length byte sits at offset 80; make it one bad byte
    p[80] = 1;
    p.insert(81, 0xFF);
    let frame = build_frame("version", &p);
    assert_eq!(decode(&frame), Err(DecodeError::InvalidText));
}

#[test]
fn invalid_relay_flag_fails() {
    let mut p = version_payload(0);
    let last = p.len() - 1;
    p[last] = 2;
    let frame = build_frame("version", &p);
    assert_eq!(decode(&frame), Err(DecodeError::InvalidRelayFlag));
}

#[test]
fn zero_stop_hash_decodes_as_none() {
    let mut payload = Vec::new();
    payload.extend_from_slice(&170_100u32.to_le_bytes());
    payload.push(0); // no known blocks
    payload.extend_from_slice(&[0u8; 32]);
    let frame = build_frame("getblocks", &payload);
    match decode(&frame).unwrap() {
        Message::GetBlocks { known_blocks, stop } => {
            assert!(known_blocks.is_empty());
            assert_eq!(stop, None);
        },
        _ => panic!("expected getblocks"),
    }
}

#[test]
fn error_to_reject_conversion() {
    let m = reject_from_error("bad input".to_string(), None);
    match m {
        Message::Reject { message, ccode, reason, data } => {
            assert_eq!(message, "bad input");
            assert_eq!(ccode, RejectReason::Other);
            assert_eq!(reason, "bad input");
            assert_eq!(data, None);
        },
        _ => panic!("expected a reject message"),
    }
    let m = reject_from_error("outer".to_string(), Some("inner cause".to_string()));
    match m {
        Message::Reject { reason, .. } => assert_eq!(reason, "inner cause"),
        _ => panic!("expected a reject message"),
    }
}

#[test]
fn reject_reason_wire_codes() {
    let pairs = [
        (RejectReason::Malformed, 0x01u8),
        (RejectReason::Invalid, 0x10),
        (RejectReason::Obsolete, 0x11),
        (RejectReason::Duplicate, 0x12),
        (RejectReason::Nonstandard, 0x40),
        (RejectReason::Dust, 0x41),
        (RejectReason::InsufficientFee, 0x42),
        (RejectReason::Checkpoint, 0x43),
        (RejectReason::Other, 0x50),
    ];
    for (r, c) in pairs {
        assert_eq!(r.code(), c);
        assert_eq!(RejectReason::from_code(c), Some(r));
    }
    assert_eq!(RejectReason::from_code(0x02), None);
}

#[test]
fn summary_is_structural() {
    assert_eq!(Message::Verack.summary(), "verack");
    assert_eq!(Message::Block(vec![0u8; 100_000]).summary(), "block");
    assert_eq!(Message::Addr(vec![]).summary(), "addr { addrs: 0 }");
    let invs: Vec<InventoryHash> =
        (0..137).map(|_| InventoryHash { kind: InvKind::Tx, hash: vec![0u8; 32] }).collect();
    assert_eq!(Message::Inv(invs).summary(), "inv { invs: 137 }");
    assert_eq!(
        Message::GetBlocks { known_blocks: vec![vec![0u8; 32]], stop: None }.summary(),
        "getblocks { known_blocks: 1, stop: None }"
    );
}

#[test]
fn encode_rejects_zero_stop_hash() {
    // The all-zero stop hash is the wire form of "no stop", so a message
    // carrying it explicitly has no faithful encoding.
    assert_eq!(
        encode(&Message::GetBlocks { known_blocks: vec![], stop: Some(vec![0u8; 32]) }),
        Err(EncodeError::InvalidMessage)
    );
}

#[test]
fn frame_length_reads_the_header() {
    let frame = encode(&Message::Ping(1)).unwrap();
    assert_eq!(zebra_wire::decode::frame_length(&frame), Ok(32));
    assert_eq!(
        zebra_wire::decode::frame_length(&frame[..10].to_vec()),
        Err(DecodeError::Truncated)
    );
    let mut bad = frame.clone();
    bad[1] ^= 0xFF;
    assert_eq!(zebra_wire::decode::frame_length(&bad), Err(DecodeError::BadMagic));
}
