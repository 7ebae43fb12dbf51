//! The laws that tie the two halves of the codec together: decoding inverts
//! encoding on every well-formed message, and no strict prefix of an encoded
//! frame decodes.

use vstd::prelude::*;
use vstd::bytes::{
    lemma_auto_spec_u16_to_from_le_bytes, lemma_auto_spec_u32_to_from_le_bytes,
    lemma_auto_spec_u64_to_from_le_bytes, spec_u32_from_le_bytes, spec_u32_to_le_bytes,
    spec_u64_to_le_bytes,
};
use vstd::utf8::{encode_utf8, encode_utf8_decode_utf8, encode_utf8_valid_utf8};

use crate::codec::{
    checksum_spec, lemma_payload_len, lemma_varint_len, magic, spec_addr_entry,
    spec_addr_in_version, spec_addr_items, spec_command_of, spec_encode, spec_hash_list,
    spec_header_entry, spec_header_items, spec_inv_entry, spec_inv_items, spec_payload,
    spec_varstr,
};
use crate::commands::{cmd_bytes, lemma_command_id_of};
use crate::decode::{
    sp_addr_entries, sp_addr_entry_at, sp_addr_in_version_at, sp_hash_entries,
    sp_header_entries, sp_inv_entries, sp_inv_entry_at, sp_message, sp_payload_of, sp_varstr_at,
    sp_version,
};
use crate::message::{
    spec_inv_kind_code, spec_reject_code, spec_reject_from_code,
    wf_counted_header, wf_inv_list, wf_inventory, wf_message, wf_meta_addr, zero_hash,
    AddrInVersionV, CountedHeaderV, InventoryHashV, MessageV, MetaAddrV,
    MAX_PAYLOAD_LEN, MAX_REJECT_MESSAGE_LEN, MAX_REJECT_REASON_LEN, MAX_USER_AGENT_LEN,
};
use crate::wire::{
    lemma_sp_varint_of_encoding, lemma_u16_be_round_trip, spec_u16_be, spec_varint, DecodeError,
};

verus! {

/// A varstr encoding embedded in a buffer parses back to its characters.
proof fn lemma_varstr_parse(b: Seq<u8>, pos: int, s: Seq<char>, maxlen: int)
    requires
        0 <= pos,
        encode_utf8(s).len() <= maxlen,
        maxlen <= 0xFFFF_FFFF,
        pos + spec_varstr(s).len() <= b.len(),
        b.subrange(pos, pos + spec_varstr(s).len() as int) == spec_varstr(s),
    ensures
        sp_varstr_at(b, pos, maxlen) == Ok::<(Seq<char>, int), DecodeError>((
            s,
            pos + spec_varstr(s).len(),
        )),
{
    let u = encode_utf8(s);
    let ulen = u.len() as u64;
    assert(ulen as int == u.len() as int);
    let v = spec_varint(ulen);
    let total = spec_varstr(s).len() as int;
    lemma_varint_len(ulen);
    assert(b.subrange(pos, pos + v.len() as int) =~= v) by {
        assert forall|i: int| 0 <= i < v.len() implies #[trigger] b.subrange(
            pos,
            pos + v.len() as int,
        )[i] == v[i] by {
            assert(b.subrange(pos, pos + v.len() as int)[i] == b.subrange(pos, pos + total)[i]);
        }
    }
    lemma_sp_varint_of_encoding(b, pos, ulen);
    let q = pos + v.len() as int;
    assert(b.subrange(q, q + u.len() as int) =~= u) by {
        assert forall|i: int| 0 <= i < u.len() implies #[trigger] b.subrange(
            q,
            q + u.len() as int,
        )[i] == u[i] by {
            assert(b.subrange(q, q + u.len() as int)[i] == b.subrange(pos, pos + total)[i
                + v.len()]);
        }
    }
    encode_utf8_valid_utf8(s);
    encode_utf8_decode_utf8(s);
}

/// An address entry of a `version` message parses back to its fields.
proof fn lemma_addr_in_version_parse(b: Seq<u8>, pos: int, a: AddrInVersionV)
    requires
        0 <= pos,
        a.ip.len() == 16,
        pos + 26 <= b.len(),
        b.subrange(pos, pos + 26) == spec_addr_in_version(a),
    ensures
        sp_addr_in_version_at(b, pos) == a,
{
    lemma_auto_spec_u64_to_from_le_bytes();
    lemma_u16_be_round_trip(a.port);
    assert(b.subrange(pos, pos + 8) =~= spec_u64_to_le_bytes(a.untrusted_services)) by {
        assert forall|i: int| 0 <= i < 8 implies #[trigger] b.subrange(pos, pos + 8)[i]
            == spec_u64_to_le_bytes(a.untrusted_services)[i] by {
            assert(b.subrange(pos, pos + 8)[i] == b.subrange(pos, pos + 26)[i]);
        }
    }
    assert(b.subrange(pos + 8, pos + 24) =~= a.ip) by {
        assert forall|i: int| 0 <= i < 16 implies #[trigger] b.subrange(pos + 8, pos + 24)[i]
            == a.ip[i] by {
            assert(b.subrange(pos + 8, pos + 24)[i] == b.subrange(pos, pos + 26)[i + 8]);
        }
    }
    assert(b.subrange(pos + 24, pos + 26) =~= spec_u16_be(a.port)) by {
        assert forall|i: int| 0 <= i < 2 implies #[trigger] b.subrange(pos + 24, pos + 26)[i]
            == spec_u16_be(a.port)[i] by {
            assert(b.subrange(pos + 24, pos + 26)[i] == b.subrange(pos, pos + 26)[i + 24]);
        }
    }
}

/// An encoded `addr` list parses back to its entries.
proof fn lemma_addr_items_parse(b: Seq<u8>, pos: int, s: Seq<MetaAddrV>)
    requires
        0 <= pos,
        forall|i: int| 0 <= i < s.len() ==> wf_meta_addr(#[trigger] s[i]),
        pos + spec_addr_items(s).len() <= b.len(),
        b.subrange(pos, pos + spec_addr_items(s).len() as int) == spec_addr_items(s),
    ensures
        sp_addr_entries(b, pos, s.len()) == Ok::<(Seq<MetaAddrV>, int), DecodeError>((
            s,
            pos + spec_addr_items(s).len(),
        )),
    decreases s.len(),
{
    lemma_auto_spec_u16_to_from_le_bytes();
    lemma_auto_spec_u32_to_from_le_bytes();
    lemma_auto_spec_u64_to_from_le_bytes();
    if s.len() == 0 {
        assert(s =~= Seq::<MetaAddrV>::empty());
    } else {
        let a = s[0];
        let e = spec_addr_entry(a);
        let total = spec_addr_items(s).len() as int;
        assert(e.len() == 30);
        assert(b.subrange(pos, pos + 30) =~= e) by {
            assert forall|i: int| 0 <= i < 30 implies #[trigger] b.subrange(pos, pos + 30)[i]
                == e[i] by {
                assert(b.subrange(pos, pos + 30)[i] == b.subrange(pos, pos + total)[i]);
            }
        }
        assert(sp_addr_entry_at(b, pos) == a) by {
            lemma_u16_be_round_trip(a.port);
            assert(b.subrange(pos, pos + 4) =~= spec_u32_to_le_bytes(a.untrusted_last_seen)) by {
                assert forall|i: int| 0 <= i < 4 implies #[trigger] b.subrange(pos, pos + 4)[i]
                    == spec_u32_to_le_bytes(a.untrusted_last_seen)[i] by {
                    assert(b.subrange(pos, pos + 4)[i] == b.subrange(pos, pos + 30)[i]);
                }
            }
            assert(b.subrange(pos + 4, pos + 12) =~= spec_u64_to_le_bytes(a.untrusted_services))
                by {
                assert forall|i: int| 0 <= i < 8 implies #[trigger] b.subrange(
                    pos + 4,
                    pos + 12,
                )[i] == spec_u64_to_le_bytes(a.untrusted_services)[i] by {
                    assert(b.subrange(pos + 4, pos + 12)[i] == b.subrange(pos, pos + 30)[i + 4]);
                }
            }
            assert(b.subrange(pos + 12, pos + 28) =~= a.ip) by {
                assert forall|i: int| 0 <= i < 16 implies #[trigger] b.subrange(
                    pos + 12,
                    pos + 28,
                )[i] == a.ip[i] by {
                    assert(b.subrange(pos + 12, pos + 28)[i] == b.subrange(pos, pos + 30)[i
                        + 12]);
                }
            }
            assert(b.subrange(pos + 28, pos + 30) =~= spec_u16_be(a.port)) by {
                assert forall|i: int| 0 <= i < 2 implies #[trigger] b.subrange(
                    pos + 28,
                    pos + 30,
                )[i] == spec_u16_be(a.port)[i] by {
                    assert(b.subrange(pos + 28, pos + 30)[i] == b.subrange(pos, pos + 30)[i
                        + 28]);
                }
            }
        }
        let rest = s.drop_first();
        assert forall|i: int| 0 <= i < rest.len() implies wf_meta_addr(#[trigger] rest[i]) by {
            assert(rest[i] == s[i + 1]);
        }
        let rl = spec_addr_items(rest).len() as int;
        assert(b.subrange(pos + 30, pos + 30 + rl) =~= spec_addr_items(rest)) by {
            assert forall|i: int| 0 <= i < rl implies #[trigger] b.subrange(
                pos + 30,
                pos + 30 + rl,
            )[i] == spec_addr_items(rest)[i] by {
                assert(b.subrange(pos + 30, pos + 30 + rl)[i] == b.subrange(pos, pos + total)[i
                    + 30]);
            }
        }
        lemma_addr_items_parse(b, pos + 30, rest);
        assert(seq![s[0]] + rest =~= s);
    }
}

/// An encoded inventory list parses back to its entries.
proof fn lemma_inv_items_parse(b: Seq<u8>, pos: int, s: Seq<InventoryHashV>)
    requires
        0 <= pos,
        forall|i: int| 0 <= i < s.len() ==> (#[trigger] s[i]).hash.len() == 32,
        pos + spec_inv_items(s).len() <= b.len(),
        b.subrange(pos, pos + spec_inv_items(s).len() as int) == spec_inv_items(s),
    ensures
        sp_inv_entries(b, pos, s.len()) == Ok::<(Seq<InventoryHashV>, int), DecodeError>((
            s,
            pos + spec_inv_items(s).len(),
        )),
    decreases s.len(),
{
    lemma_auto_spec_u32_to_from_le_bytes();
    if s.len() == 0 {
        assert(s =~= Seq::<InventoryHashV>::empty());
    } else {
        let a = s[0];
        let e = spec_inv_entry(a);
        let total = spec_inv_items(s).len() as int;
        assert(e.len() == 36);
        assert(b.subrange(pos, pos + 36) =~= e) by {
            assert forall|i: int| 0 <= i < 36 implies #[trigger] b.subrange(pos, pos + 36)[i]
                == e[i] by {
                assert(b.subrange(pos, pos + 36)[i] == b.subrange(pos, pos + total)[i]);
            }
        }
        assert(sp_inv_entry_at(b, pos) == Some(a)) by {
            assert(b.subrange(pos, pos + 4) =~= spec_u32_to_le_bytes(spec_inv_kind_code(a.kind)))
                by {
                assert forall|i: int| 0 <= i < 4 implies #[trigger] b.subrange(pos, pos + 4)[i]
                    == spec_u32_to_le_bytes(spec_inv_kind_code(a.kind))[i] by {
                    assert(b.subrange(pos, pos + 4)[i] == b.subrange(pos, pos + 36)[i]);
                }
            }
            assert(b.subrange(pos + 4, pos + 36) =~= a.hash) by {
                assert forall|i: int| 0 <= i < 32 implies #[trigger] b.subrange(
                    pos + 4,
                    pos + 36,
                )[i] == a.hash[i] by {
                    assert(b.subrange(pos + 4, pos + 36)[i] == b.subrange(pos, pos + 36)[i + 4]);
                }
            }
        }
        let rest = s.drop_first();
        assert forall|i: int| 0 <= i < rest.len() implies (#[trigger] rest[i]).hash.len()
            == 32 by {
            assert(rest[i] == s[i + 1]);
        }
        let rl = spec_inv_items(rest).len() as int;
        assert(b.subrange(pos + 36, pos + 36 + rl) =~= spec_inv_items(rest)) by {
            assert forall|i: int| 0 <= i < rl implies #[trigger] b.subrange(
                pos + 36,
                pos + 36 + rl,
            )[i] == spec_inv_items(rest)[i] by {
                assert(b.subrange(pos + 36, pos + 36 + rl)[i] == b.subrange(pos, pos + total)[i
                    + 36]);
            }
        }
        lemma_inv_items_parse(b, pos + 36, rest);
        assert(seq![s[0]] + rest =~= s);
    }
}

/// An encoded hash list parses back to its hashes.
proof fn lemma_hash_items_parse(b: Seq<u8>, pos: int, s: Seq<Seq<u8>>)
    requires
        0 <= pos,
        forall|i: int| 0 <= i < s.len() ==> (#[trigger] s[i]).len() == 32,
        pos + spec_hash_list(s).len() <= b.len(),
        b.subrange(pos, pos + spec_hash_list(s).len() as int) == spec_hash_list(s),
    ensures
        sp_hash_entries(b, pos, s.len()) == Ok::<(Seq<Seq<u8>>, int), DecodeError>((
            s,
            pos + spec_hash_list(s).len(),
        )),
    decreases s.len(),
{
    if s.len() == 0 {
        assert(s =~= Seq::<Seq<u8>>::empty());
    } else {
        let total = spec_hash_list(s).len() as int;
        assert(b.subrange(pos, pos + 32) =~= s[0]) by {
            assert forall|i: int| 0 <= i < 32 implies #[trigger] b.subrange(pos, pos + 32)[i]
                == s[0][i] by {
                assert(b.subrange(pos, pos + 32)[i] == b.subrange(pos, pos + total)[i]);
            }
        }
        let rest = s.drop_first();
        assert forall|i: int| 0 <= i < rest.len() implies (#[trigger] rest[i]).len() == 32 by {
            assert(rest[i] == s[i + 1]);
        }
        let rl = spec_hash_list(rest).len() as int;
        assert(b.subrange(pos + 32, pos + 32 + rl) =~= spec_hash_list(rest)) by {
            assert forall|i: int| 0 <= i < rl implies #[trigger] b.subrange(
                pos + 32,
                pos + 32 + rl,
            )[i] == spec_hash_list(rest)[i] by {
                assert(b.subrange(pos + 32, pos + 32 + rl)[i] == b.subrange(pos, pos + total)[i
                    + 32]);
            }
        }
        lemma_hash_items_parse(b, pos + 32, rest);
        assert(seq![s[0]] + rest =~= s);
    }
}

/// An encoded header list parses back to its entries.
proof fn lemma_header_items_parse(b: Seq<u8>, pos: int, s: Seq<CountedHeaderV>)
    requires
        0 <= pos,
        forall|i: int| 0 <= i < s.len() ==> wf_counted_header(#[trigger] s[i]),
        pos + spec_header_items(s).len() <= b.len(),
        b.subrange(pos, pos + spec_header_items(s).len() as int) == spec_header_items(s),
    ensures
        sp_header_entries(b, pos, s.len()) == Ok::<(Seq<CountedHeaderV>, int), DecodeError>((
            s,
            pos + spec_header_items(s).len(),
        )),
    decreases s.len(),
{
    if s.len() == 0 {
        assert(s =~= Seq::<CountedHeaderV>::empty());
    } else {
        let a = s[0];
        let e = spec_header_entry(a);
        let total = spec_header_items(s).len() as int;
        let v = spec_varint(a.transaction_count);
        lemma_varint_len(a.transaction_count);
        assert(e.len() == 80 + v.len());
        assert(b.subrange(pos, pos + 80) =~= a.header) by {
            assert forall|i: int| 0 <= i < 80 implies #[trigger] b.subrange(pos, pos + 80)[i]
                == a.header[i] by {
                assert(b.subrange(pos, pos + 80)[i] == b.subrange(pos, pos + total)[i]);
            }
        }
        assert(b.subrange(pos + 80, pos + 80 + v.len() as int) =~= v) by {
            assert forall|i: int| 0 <= i < v.len() implies #[trigger] b.subrange(
                pos + 80,
                pos + 80 + v.len() as int,
            )[i] == v[i] by {
                assert(b.subrange(pos + 80, pos + 80 + v.len() as int)[i] == b.subrange(
                    pos,
                    pos + total,
                )[i + 80]);
            }
        }
        lemma_sp_varint_of_encoding(b, pos + 80, a.transaction_count);
        let q = pos + 80 + v.len() as int;
        let rest = s.drop_first();
        assert forall|i: int| 0 <= i < rest.len() implies wf_counted_header(
            #[trigger] rest[i],
        ) by {
            assert(rest[i] == s[i + 1]);
        }
        let rl = spec_header_items(rest).len() as int;
        assert(b.subrange(q, q + rl) =~= spec_header_items(rest)) by {
            assert forall|i: int| 0 <= i < rl implies #[trigger] b.subrange(q, q + rl)[i]
                == spec_header_items(rest)[i] by {
                assert(b.subrange(q, q + rl)[i] == b.subrange(pos, pos + total)[i + 80
                    + v.len()]);
            }
        }
        lemma_header_items_parse(b, q, rest);
        assert(CountedHeaderV { header: b.subrange(pos, pos + 80), transaction_count:
            a.transaction_count } == a);
        assert(seq![s[0]] + rest =~= s);
    }
}


/// An encoded inventory list message parses back wholesale.
proof fn lemma_inv_list_parse(invs: Seq<InventoryHashV>)
    requires
        wf_inv_list(invs),
    ensures
        crate::decode::sp_inv_msg(crate::codec::spec_inv_list(invs)) == Ok::<
            Seq<InventoryHashV>,
            DecodeError,
        >(invs),
{
    let pl = crate::codec::spec_inv_list(invs);
    let n = invs.len() as u64;
    let v = spec_varint(n);
    lemma_varint_len(n);
    assert(pl.subrange(0, v.len() as int) =~= v);
    lemma_sp_varint_of_encoding(pl, 0, n);
    let il = spec_inv_items(invs).len() as int;
    assert(pl.subrange(v.len() as int, v.len() + il) =~= spec_inv_items(invs));
    assert forall|i: int| 0 <= i < invs.len() implies (#[trigger] invs[i]).hash.len() == 32 by {
        assert(wf_inventory(invs[i]));
    }
    lemma_inv_items_parse(pl, v.len() as int, invs);
}

/// An encoded block locator payload parses back to its parts.
proof fn lemma_locator_parse(known_blocks: Seq<Seq<u8>>, stop: Option<Seq<u8>>)
    requires
        crate::message::wf_block_locator(known_blocks, stop),
    ensures
        crate::decode::sp_locator(crate::codec::spec_block_locator(known_blocks, stop)) == Ok::<
            (Seq<Seq<u8>>, Option<Seq<u8>>),
            DecodeError,
        >((known_blocks, stop)),
{
    lemma_auto_spec_u32_to_from_le_bytes();
    let pl = crate::codec::spec_block_locator(known_blocks, stop);
    let n = known_blocks.len() as u64;
    let v = spec_varint(n);
    lemma_varint_len(n);
    assert(pl.subrange(4, 4 + v.len() as int) =~= v);
    lemma_sp_varint_of_encoding(pl, 4, n);
    let q = 4 + v.len() as int;
    let hl = spec_hash_list(known_blocks).len() as int;
    assert(pl.subrange(q, q + hl) =~= spec_hash_list(known_blocks));
    lemma_hash_items_parse(pl, q, known_blocks);
    let qh = q + hl;
    assert(pl.len() == qh + 32);
    match stop {
        Some(h) => {
            assert(pl.subrange(qh, qh + 32) =~= h);
        },
        None => {
            assert(pl.subrange(qh, qh + 32) =~= zero_hash());
        },
    }
}

/// Decoding the payload of a well-formed message under its own command
/// yields the message back.
#[verifier::spinoff_prover]
#[verifier::rlimit(100)]
proof fn lemma_payload_parse(m: MessageV)
    requires
        wf_message(m),
    ensures
        sp_payload_of(spec_command_of(m), spec_payload(m)) == Ok::<MessageV, DecodeError>(m),
{
    lemma_auto_spec_u16_to_from_le_bytes();
    lemma_auto_spec_u32_to_from_le_bytes();
    lemma_auto_spec_u64_to_from_le_bytes();
    let pl = spec_payload(m);
    match m {
        MessageV::Version { .. } => {
            lemma_version_parse(m);
        },
        MessageV::Verack => {},
        MessageV::Ping(_) => {
            assert(pl.subrange(0, 8) =~= pl);
        },
        MessageV::Pong(_) => {
            assert(pl.subrange(0, 8) =~= pl);
        },
        MessageV::Reject { .. } => {
            lemma_reject_parse(m);
        },
        MessageV::GetAddr => {},
        MessageV::Addr(addrs) => {
            let n = addrs.len() as u64;
            let v = spec_varint(n);
            lemma_varint_len(n);
            assert(pl.subrange(0, v.len() as int) =~= v);
            lemma_sp_varint_of_encoding(pl, 0, n);
            let il = spec_addr_items(addrs).len() as int;
            assert(pl.subrange(v.len() as int, v.len() + il) =~= spec_addr_items(addrs));
            lemma_addr_items_parse(pl, v.len() as int, addrs);
            assert(crate::decode::sp_addr(pl) == Ok::<MessageV, DecodeError>(m));
        },
        MessageV::GetBlocks { known_blocks, stop } => {
            lemma_locator_parse(known_blocks, stop);
        },
        MessageV::GetHeaders { known_blocks, stop } => {
            lemma_locator_parse(known_blocks, stop);
        },
        MessageV::Inv(invs) => {
            lemma_inv_list_parse(invs);
        },
        MessageV::GetData(invs) => {
            lemma_inv_list_parse(invs);
        },
        MessageV::NotFound(invs) => {
            lemma_inv_list_parse(invs);
        },
        MessageV::Headers(hs) => {
            let n = hs.len() as u64;
            let v = spec_varint(n);
            lemma_varint_len(n);
            assert(pl.subrange(0, v.len() as int) =~= v);
            lemma_sp_varint_of_encoding(pl, 0, n);
            let il = spec_header_items(hs).len() as int;
            assert(pl.subrange(v.len() as int, v.len() + il) =~= spec_header_items(hs));
            lemma_header_items_parse(pl, v.len() as int, hs);
            assert(crate::decode::sp_headers_msg(pl) == Ok::<MessageV, DecodeError>(m));
        },
        MessageV::Block(_) => {},
        MessageV::Tx(_) => {},
        MessageV::Mempool => {},
        MessageV::FilterLoad { .. } => {
            lemma_filterload_parse(m);
        },
        MessageV::FilterAdd { data } => {
            let dl = data.len() as u64;
            let v = spec_varint(dl);
            lemma_varint_len(dl);
            assert(pl.subrange(0, v.len() as int) =~= v);
            lemma_sp_varint_of_encoding(pl, 0, dl);
            assert(pl.subrange(v.len() as int, pl.len() as int) =~= data);
            assert(crate::decode::sp_filteradd(pl) == Ok::<MessageV, DecodeError>(m));
        },
        MessageV::FilterClear => {},
    }
}

/// The byte layout of an encoded frame: where the magic, command, length,
/// checksum and payload stand.
proof fn lemma_frame_layout(m: MessageV)
    requires
        wf_message(m),
    ensures
        spec_encode(m).len() == 24 + spec_payload(m).len(),
        spec_encode(m).subrange(0, 4) == magic(),
        spec_encode(m).subrange(4, 16) == cmd_bytes(spec_command_of(m)),
        spec_encode(m).subrange(16, 20) == spec_u32_to_le_bytes(spec_payload(m).len() as u32),
        spec_encode(m).subrange(20, 24) == checksum_spec(spec_payload(m)),
        spec_encode(m).subrange(24, spec_encode(m).len() as int) == spec_payload(m),
        spec_payload(m).len() <= MAX_PAYLOAD_LEN,
        cmd_bytes(spec_command_of(m)).len() == 12,
{
    lemma_payload_len(m);
    let b = spec_encode(m);
    let pl = spec_payload(m);
    let cmd = cmd_bytes(spec_command_of(m));
    lemma_auto_spec_u32_to_from_le_bytes();
    assert(cmd.len() == 12);
    assert(b.len() == 24 + pl.len());
    assert(b.subrange(0, 4) =~= magic());
    assert(b.subrange(4, 16) =~= cmd);
    assert(b.subrange(16, 20) =~= spec_u32_to_le_bytes(pl.len() as u32));
    assert(b.subrange(20, 24) =~= checksum_spec(pl));
    assert(b.subrange(24, b.len() as int) =~= pl);
}

/// Round-trip law: the encoded frame of every well-formed message decodes,
/// and decodes to that very message. Together with the contracts of
/// [`crate::codec::encode`] and [`crate::decode::decode`], this says that
/// decoding the bytes encoding returns yields the original message, for
/// every variant and every well-formed field value.
pub proof fn lemma_round_trip(m: MessageV)
    requires
        wf_message(m),
    ensures
        sp_message(spec_encode(m)) == Ok::<MessageV, DecodeError>(m),
{
    let b = spec_encode(m);
    let pl = spec_payload(m);
    let id = spec_command_of(m);
    lemma_frame_layout(m);
    lemma_auto_spec_u32_to_from_le_bytes();
    assert(spec_u32_from_le_bytes(b.subrange(16, 20)) == pl.len() as u32);
    assert((pl.len() as u32) as int == pl.len() as int);
    lemma_command_id_of(id);
    lemma_payload_parse(m);
    assert(b.subrange(24, b.len() as int) == pl);
    assert(sp_message(b) == sp_payload_of(id, pl));
}

/// Truncation safety: cutting an encoded frame at any strict prefix leaves
/// bytes that fail to decode — a shorter buffer is either too short for a
/// frame header, or its declared payload length no longer matches the bytes
/// that are actually there.
pub proof fn lemma_truncation_rejected(m: MessageV, k: int)
    requires
        wf_message(m),
        0 <= k < spec_encode(m).len(),
    ensures
        sp_message(spec_encode(m).take(k)) is Err,
{
    let b = spec_encode(m);
    let t = b.take(k);
    let pl = spec_payload(m);
    lemma_frame_layout(m);
    lemma_auto_spec_u32_to_from_le_bytes();
    if k >= 24 {
        assert(t.subrange(0, 4) =~= b.subrange(0, 4));
        assert(t.subrange(16, 20) =~= b.subrange(16, 20));
        assert(spec_u32_from_le_bytes(t.subrange(16, 20)) == pl.len() as u32);
        assert(t.len() - 24 < pl.len());
    }
}


/// An encoded `version` payload parses back to its message.
#[verifier::spinoff_prover]
#[verifier::rlimit(100)]
proof fn lemma_version_parse(m: MessageV)
    requires
        wf_message(m),
        m is Version,
    ensures
        sp_version(spec_payload(m)) == Ok::<MessageV, DecodeError>(m),
{
    lemma_auto_spec_u16_to_from_le_bytes();
    lemma_auto_spec_u32_to_from_le_bytes();
    lemma_auto_spec_u64_to_from_le_bytes();
    let pl = spec_payload(m);
    match m {
        MessageV::Version {
            version,
            services,
            timestamp,
            address_recv,
            address_from,
            nonce,
            user_agent,
            start_height,
            relay,
        } => {
            let g = spec_varstr(user_agent);
            let gl = g.len() as int;
            lemma_varint_len(encode_utf8(user_agent).len() as u64);
            assert(spec_addr_in_version(address_recv).len() == 26);
            assert(spec_addr_in_version(address_from).len() == 26);
            assert(pl.len() == 85 + gl);
            assert(pl.subrange(0, 4) =~= spec_u32_to_le_bytes(version));
            assert(pl.subrange(4, 12) =~= spec_u64_to_le_bytes(services));
            assert(pl.subrange(12, 20) =~= spec_u64_to_le_bytes(timestamp as u64));
            assert(pl.subrange(20, 46) =~= spec_addr_in_version(address_recv));
            assert(pl.subrange(46, 72) =~= spec_addr_in_version(address_from));
            assert(pl.subrange(72, 80) =~= spec_u64_to_le_bytes(nonce));
            assert(pl.subrange(80, 80 + gl) =~= g);
            assert(pl.subrange(80 + gl, 84 + gl) =~= spec_u32_to_le_bytes(start_height));
            assert(pl[84 + gl] == (if relay {
                1u8
            } else {
                0u8
            }));
            lemma_addr_in_version_parse(pl, 20, address_recv);
            lemma_addr_in_version_parse(pl, 46, address_from);
            lemma_varstr_parse(pl, 80, user_agent, MAX_USER_AGENT_LEN as int);
            assert((timestamp as u64) as i64 == timestamp) by (bit_vector);
            assert(sp_version(pl) == Ok::<MessageV, DecodeError>(m));
        },
        _ => {},
    }
}

/// An encoded `reject` payload parses back to its message.
#[verifier::spinoff_prover]
#[verifier::rlimit(100)]
proof fn lemma_reject_parse(m: MessageV)
    requires
        wf_message(m),
        m is Reject,
    ensures
        crate::decode::sp_reject(spec_payload(m)) == Ok::<MessageV, DecodeError>(m),
{
    lemma_auto_spec_u16_to_from_le_bytes();
    lemma_auto_spec_u32_to_from_le_bytes();
    lemma_auto_spec_u64_to_from_le_bytes();
    let pl = spec_payload(m);
    match m {
        MessageV::Reject { message, ccode, reason, data } => {
            let g1 = spec_varstr(message);
            let l1 = g1.len() as int;
            let g2 = spec_varstr(reason);
            let l2 = g2.len() as int;
            lemma_varint_len(encode_utf8(message).len() as u64);
            lemma_varint_len(encode_utf8(reason).len() as u64);
            assert(pl.subrange(0, l1) =~= g1);
            lemma_varstr_parse(pl, 0, message, MAX_REJECT_MESSAGE_LEN as int);
            assert(pl[l1] == spec_reject_code(ccode));
            assert(spec_reject_from_code(spec_reject_code(ccode)) == Some(ccode));
            assert(pl.subrange(l1 + 1, l1 + 1 + l2) =~= g2);
            lemma_varstr_parse(pl, l1 + 1, reason, MAX_REJECT_REASON_LEN as int);
            match data {
                Some(d) => {
                    assert(pl.len() == l1 + 1 + l2 + 32);
                    assert(pl.subrange(l1 + 1 + l2, l1 + 1 + l2 + 32) =~= d);
                },
                None => {
                    assert(pl.len() == l1 + 1 + l2);
                },
            }
            assert(crate::decode::sp_reject(pl) == Ok::<MessageV, DecodeError>(m));
        },
        _ => {},
    }
}

/// An encoded `filterload` payload parses back to its message.
#[verifier::spinoff_prover]
#[verifier::rlimit(100)]
proof fn lemma_filterload_parse(m: MessageV)
    requires
        wf_message(m),
        m is FilterLoad,
    ensures
        crate::decode::sp_filterload(spec_payload(m)) == Ok::<MessageV, DecodeError>(m),
{
    lemma_auto_spec_u16_to_from_le_bytes();
    lemma_auto_spec_u32_to_from_le_bytes();
    lemma_auto_spec_u64_to_from_le_bytes();
    let pl = spec_payload(m);
    match m {
        MessageV::FilterLoad { filter, hash_functions_count, tweak, flags } => {
            let fl = filter.len() as u64;
            let v = spec_varint(fl);
            lemma_varint_len(fl);
            assert(pl.subrange(0, v.len() as int) =~= v);
            lemma_sp_varint_of_encoding(pl, 0, fl);
            let fend = v.len() as int + filter.len() as int;
            assert(pl.subrange(v.len() as int, fend) =~= filter);
            assert(pl.len() == fend + 9);
            assert(pl.subrange(fend, fend + 4) =~= spec_u32_to_le_bytes(hash_functions_count));
            assert(pl.subrange(fend + 4, fend + 8) =~= spec_u32_to_le_bytes(tweak));
            assert(pl[fend + 8] == flags);
            assert(crate::decode::sp_filterload(pl) == Ok::<MessageV, DecodeError>(m));
        },
        _ => {},
    }
}


} // verus!
