//! Round-trip coverage: every variant, with boundary field values, survives
//! encoding followed by decoding unchanged.

use zebra_wire::codec::encode;
use zebra_wire::decode::decode;
use zebra_wire::message::{
    AddrInVersion, CountedHeader, InvKind, InventoryHash, Message, MetaAddr, RejectReason,
    MAX_TIMESTAMP, MIN_TIMESTAMP,
};

fn round_trip(m: Message) {
    let bytes = encode(&m).expect("a well-formed message must encode");
    let back = decode(&bytes).expect("an encoded message must decode");
    assert_eq!(back, m);
}

fn sample_addr(port: u16) -> AddrInVersion {
    AddrInVersion {
        untrusted_services: 1,
        ip: vec![0, 0, 0, 0, 0, 0, 0, 0, 0, 0, 0xFF, 0xFF, 127, 0, 0, 1],
        port,
    }
}

fn sample_version(timestamp: i64, user_agent: &str) -> Message {
    Message::Version {
        version: 170_100,
        services: 5,
        timestamp,
        address_recv: sample_addr(8233),
        address_from: sample_addr(18233),
        nonce: 0xDEAD_BEEF_0123_4567,
        user_agent: user_agent.to_string(),
        start_height: 2_000_000,
        relay: true,
    }
}

#[test]
fn version_round_trip() {
    round_trip(sample_version(1_700_000_000, "/zebra-wire:1.0/"));
}

#[test]
fn version_round_trip_boundary_timestamps() {
    round_trip(sample_version(MIN_TIMESTAMP, ""));
    round_trip(sample_version(MAX_TIMESTAMP, ""));
    round_trip(sample_version(0, ""));
}

#[test]
fn version_round_trip_relay_false() {
    let m = match sample_version(7, "ua") {
        Message::Version {
            version,
            services,
            timestamp,
            address_recv,
            address_from,
            nonce,
            user_agent,
            start_height,
            ..
        } => Message::Version {
            version,
            services,
            timestamp,
            address_recv,
            address_from,
            nonce,
            user_agent,
            start_height,
            relay: false,
        },
        m => m,
    };
    round_trip(m);
}

#[test]
fn version_round_trip_unicode_user_agent() {
    round_trip(sample_version(12345, "z\u{e9}bra \u{1F993}"));
}

#[test]
fn verack_round_trip() {
    round_trip(Message::Verack);
}

#[test]
fn ping_round_trip_boundary_nonces() {
    round_trip(Message::Ping(0));
    round_trip(Message::Ping(u64::MAX));
}

#[test]
fn pong_round_trip() {
    round_trip(Message::Pong(0x0123_4567_89AB_CDEF));
}

#[test]
fn reject_round_trip_without_data() {
    round_trip(Message::Reject {
        message: "tx".to_string(),
        ccode: RejectReason::Duplicate,
        reason: "already seen".to_string(),
        data: None,
    });
}

#[test]
fn reject_round_trip_with_data() {
    round_trip(Message::Reject {
        message: "block".to_string(),
        ccode: RejectReason::Invalid,
        reason: "bad proof".to_string(),
        data: Some(vec![0xAB; 32]),
    });
}

#[test]
fn reject_round_trip_every_code() {
    let codes = [
        RejectReason::Malformed,
        RejectReason::Invalid,
        RejectReason::Obsolete,
        RejectReason::Duplicate,
        RejectReason::Nonstandard,
        RejectReason::Dust,
        RejectReason::InsufficientFee,
        RejectReason::Checkpoint,
        RejectReason::Other,
    ];
    for c in codes {
        round_trip(Message::Reject {
            message: "m".to_string(),
            ccode: c,
            reason: "r".to_string(),
            data: None,
        });
    }
}

#[test]
fn getaddr_round_trip() {
    round_trip(Message::GetAddr);
}

fn meta(last_seen: u32, port: u16) -> MetaAddr {
    MetaAddr {
        untrusted_last_seen: last_seen,
        untrusted_services: 1,
        ip: vec![0x20, 1, 0xD, 0xB8, 0, 0, 0, 0, 0, 0, 0, 0, 0, 0, 0, 7],
        port,
    }
}

#[test]
fn addr_round_trip_empty() {
    round_trip(Message::Addr(vec![]));
}

#[test]
fn addr_round_trip_full() {
    let addrs: Vec<MetaAddr> = (0..1000).map(|i| meta(i as u32, (i % 65536) as u16)).collect();
    round_trip(Message::Addr(addrs));
}

#[test]
fn getblocks_round_trip() {
    round_trip(Message::GetBlocks {
        known_blocks: vec![vec![1u8; 32], vec![2u8; 32]],
        stop: Some(vec![3u8; 32]),
    });
    round_trip(Message::GetBlocks { known_blocks: vec![], stop: None });
}

#[test]
fn getheaders_round_trip() {
    let known: Vec<Vec<u8>> = (0..500u32)
        .map(|i| {
            let mut h = vec![0u8; 32];
            h[0] = (i % 256) as u8;
            h[1] = (i / 256) as u8;
            h
        })
        .collect();
    round_trip(Message::GetHeaders { known_blocks: known, stop: None });
}

fn inv_entry(kind: InvKind, byte: u8) -> InventoryHash {
    InventoryHash { kind, hash: vec![byte; 32] }
}

#[test]
fn inv_round_trip() {
    round_trip(Message::Inv(vec![]));
    round_trip(Message::Inv(vec![
        inv_entry(InvKind::Error, 0),
        inv_entry(InvKind::Tx, 1),
        inv_entry(InvKind::Block, 2),
        inv_entry(InvKind::FilteredBlock, 3),
    ]));
}

#[test]
fn inv_round_trip_maximum_length() {
    let invs: Vec<InventoryHash> =
        (0..50_000u32).map(|i| inv_entry(InvKind::Tx, (i % 256) as u8)).collect();
    round_trip(Message::Inv(invs));
}

#[test]
fn getdata_round_trip() {
    round_trip(Message::GetData(vec![inv_entry(InvKind::Block, 9)]));
}

#[test]
fn notfound_round_trip() {
    round_trip(Message::NotFound(vec![inv_entry(InvKind::Tx, 5)]));
}

#[test]
fn headers_round_trip() {
    round_trip(Message::Headers(vec![]));
    round_trip(Message::Headers(vec![
        CountedHeader { header: vec![7u8; 80], transaction_count: 0 },
        CountedHeader { header: vec![8u8; 80], transaction_count: 12_345 },
        CountedHeader { header: vec![9u8; 80], transaction_count: u64::MAX },
    ]));
}

#[test]
fn block_round_trip() {
    round_trip(Message::Block(vec![]));
    round_trip(Message::Block(vec![0xAA; 100_000]));
}

#[test]
fn tx_round_trip() {
    round_trip(Message::Tx(vec![1, 2, 3, 4, 5]));
}

#[test]
fn mempool_round_trip() {
    round_trip(Message::Mempool);
}

#[test]
fn filterload_round_trip() {
    round_trip(Message::FilterLoad {
        filter: vec![0xF0; 36_000],
        hash_functions_count: 50,
        tweak: 0xDEAD_BEEF,
        flags: 1,
    });
    round_trip(Message::FilterLoad {
        filter: vec![],
        hash_functions_count: 0,
        tweak: 0,
        flags: 0,
    });
}

#[test]
fn filteradd_round_trip() {
    round_trip(Message::FilterAdd { data: vec![0x42; 520] });
    round_trip(Message::FilterAdd { data: vec![] });
}

#[test]
fn filterclear_round_trip() {
    round_trip(Message::FilterClear);
}

#[test]
fn ping_pong_nonce_echo() {
    let nonce: u64 = 0x1122_3344_5566_7788;
    let ping_bytes = encode(&Message::Ping(nonce)).unwrap();
    let ping = decode(&ping_bytes).unwrap();
    let echoed = match ping {
        Message::Ping(n) => n,
        _ => panic!("expected a ping"),
    };
    let pong_bytes = encode(&Message::Pong(echoed)).unwrap();
    match decode(&pong_bytes).unwrap() {
        Message::Pong(n) => assert_eq!(n, nonce),
        _ => panic!("expected a pong"),
    }
}
