//! The decoding half of the wire codec: a spec-level parser that defines
//! exactly which byte sequences decode, to which message, and with which
//! error otherwise; and the verified decoder, proved to return precisely
//! what the spec parser says.

use vstd::prelude::*;
use vstd::bytes::{spec_u32_from_le_bytes, spec_u64_from_le_bytes};
use vstd::utf8::{decode_utf8, encode_utf8, valid_utf8};

use crate::codec::{checksum, checksum_spec, is_zero_hash, magic, magic_exec, valid_timestamp};
use crate::commands::{cmd_bytes, cmd_bytes_exec, CmdId};
use crate::message::{
    addrs_view, hashes_view, headers_view, invs_view, spec_inv_kind_from_code, wf_block_locator,
    wf_inv_list,
    spec_reject_from_code, wf_counted_header, wf_inventory, wf_message, wf_meta_addr, zero_hash,
    AddrInVersion, AddrInVersionV, CountedHeader, CountedHeaderV, InvKind, InventoryHash,
    InventoryHashV, Message, MessageV, MetaAddr, MetaAddrV, RejectReason,
    MAX_ADDRS_IN_MESSAGE, MAX_ADDRV2_ADDR_LEN, MAX_FILTER_ADD_LEN, MAX_FILTER_HASH_FUNCS,
    MAX_FILTER_LEN, MAX_HEADERS_IN_MESSAGE, MAX_INV_IN_MESSAGE, MAX_KNOWN_BLOCKS,
    MAX_PAYLOAD_LEN, MAX_REJECT_MESSAGE_LEN, MAX_REJECT_REASON_LEN, MAX_TIMESTAMP,
    MAX_USER_AGENT_LEN, MIN_TIMESTAMP,
};
use crate::wire::{
    bytes_match, read_bytes, read_u16_be, read_u32_le, read_u64_le, read_u8, read_varint,
    sp_varint_at, spec_u16_from_be, DecodeError,
};

verus! {

/// Parse a length-prefixed text field at `pos`: a varint byte count bounded
/// by `maxlen`, then that many bytes of UTF-8.
pub open spec fn sp_varstr_at(b: Seq<u8>, pos: int, maxlen: int) -> Result<
    (Seq<char>, int),
    DecodeError,
> {
    match sp_varint_at(b, pos) {
        Err(e) => Err(e),
        Ok((n, q)) => if n > maxlen {
            Err(DecodeError::CountOverMax)
        } else if q + n > b.len() {
            Err(DecodeError::Truncated)
        } else if valid_utf8(b.subrange(q, q + n)) {
            Ok((decode_utf8(b.subrange(q, q + n)), q + n))
        } else {
            Err(DecodeError::InvalidText)
        },
    }
}

/// The address-with-services entry of a `version` message at `pos`.
pub open spec fn sp_addr_in_version_at(b: Seq<u8>, pos: int) -> AddrInVersionV {
    AddrInVersionV {
        untrusted_services: spec_u64_from_le_bytes(b.subrange(pos, pos + 8)),
        ip: b.subrange(pos + 8, pos + 24),
        port: spec_u16_from_be(b.subrange(pos + 24, pos + 26)),
    }
}

/// One fixed-size `addr` entry at `pos`.
pub open spec fn sp_addr_entry_at(b: Seq<u8>, pos: int) -> MetaAddrV {
    MetaAddrV {
        untrusted_last_seen: spec_u32_from_le_bytes(b.subrange(pos, pos + 4)),
        untrusted_services: spec_u64_from_le_bytes(b.subrange(pos + 4, pos + 12)),
        ip: b.subrange(pos + 12, pos + 28),
        port: spec_u16_from_be(b.subrange(pos + 28, pos + 30)),
    }
}

/// `n` fixed-size `addr` entries from `pos` on.
pub open spec fn sp_addr_entries(b: Seq<u8>, pos: int, n: nat) -> Result<
    (Seq<MetaAddrV>, int),
    DecodeError,
>
    decreases n,
{
    if n == 0 {
        Ok((Seq::<MetaAddrV>::empty(), pos))
    } else if pos + 30 > b.len() {
        Err(DecodeError::Truncated)
    } else {
        match sp_addr_entries(b, pos + 30, (n - 1) as nat) {
            Ok((rest, q)) => Ok((seq![sp_addr_entry_at(b, pos)] + rest, q)),
            Err(e) => Err(e),
        }
    }
}

/// One inventory entry at `pos`, if its kind code is known.
pub open spec fn sp_inv_entry_at(b: Seq<u8>, pos: int) -> Option<InventoryHashV> {
    match spec_inv_kind_from_code(spec_u32_from_le_bytes(b.subrange(pos, pos + 4))) {
        None => None,
        Some(k) => Some(InventoryHashV { kind: k, hash: b.subrange(pos + 4, pos + 36) }),
    }
}

/// `n` inventory entries from `pos` on.
pub open spec fn sp_inv_entries(b: Seq<u8>, pos: int, n: nat) -> Result<
    (Seq<InventoryHashV>, int),
    DecodeError,
>
    decreases n,
{
    if n == 0 {
        Ok((Seq::<InventoryHashV>::empty(), pos))
    } else if pos + 36 > b.len() {
        Err(DecodeError::Truncated)
    } else {
        match sp_inv_entry_at(b, pos) {
            None => Err(DecodeError::InvalidInventoryKind),
            Some(e) => match sp_inv_entries(b, pos + 36, (n - 1) as nat) {
                Ok((rest, q)) => Ok((seq![e] + rest, q)),
                Err(e2) => Err(e2),
            },
        }
    }
}

/// `n` 32-byte hashes from `pos` on.
pub open spec fn sp_hash_entries(b: Seq<u8>, pos: int, n: nat) -> Result<
    (Seq<Seq<u8>>, int),
    DecodeError,
>
    decreases n,
{
    if n == 0 {
        Ok((Seq::<Seq<u8>>::empty(), pos))
    } else if pos + 32 > b.len() {
        Err(DecodeError::Truncated)
    } else {
        match sp_hash_entries(b, pos + 32, (n - 1) as nat) {
            Ok((rest, q)) => Ok((seq![b.subrange(pos, pos + 32)] + rest, q)),
            Err(e) => Err(e),
        }
    }
}

/// `n` header entries from `pos` on: a fixed-size header blob, then the
/// block's transaction count as a varint.
pub open spec fn sp_header_entries(b: Seq<u8>, pos: int, n: nat) -> Result<
    (Seq<CountedHeaderV>, int),
    DecodeError,
>
    decreases n,
{
    if n == 0 {
        Ok((Seq::<CountedHeaderV>::empty(), pos))
    } else if pos + 80 > b.len() {
        Err(DecodeError::Truncated)
    } else {
        match sp_varint_at(b, pos + 80) {
            Err(e) => Err(e),
            Ok((c, q)) => match sp_header_entries(b, q, (n - 1) as nat) {
                Ok((rest, qf)) => Ok((
                    seq![
                        CountedHeaderV { header: b.subrange(pos, pos + 80), transaction_count: c },
                    ] + rest,
                    qf,
                )),
                Err(e) => Err(e),
            },
        }
    }
}

/// A 4-byte IPv4 address in its 16-byte mapped form.
pub open spec fn ipv4_mapped(a: Seq<u8>) -> Seq<u8> {
    Seq::new(10, |i: int| 0u8) + seq![0xFFu8, 0xFFu8] + a
}

/// `n` `addrv2` entries from `pos` on. Entries of the two recognized address
/// types (IPv4 and IPv6) are kept; entries of unknown types are skipped,
/// provided their declared address length stays within bounds; a recognized
/// type with the wrong length rejects the whole message.
pub open spec fn sp_addrv2_entries(b: Seq<u8>, pos: int, n: nat) -> Result<
    (Seq<MetaAddrV>, int),
    DecodeError,
>
    decreases n,
{
    if n == 0 {
        Ok((Seq::<MetaAddrV>::empty(), pos))
    } else if pos + 4 > b.len() {
        Err(DecodeError::Truncated)
    } else {
        let t = spec_u32_from_le_bytes(b.subrange(pos, pos + 4));
        match sp_varint_at(b, pos + 4) {
            Err(e) => Err(e),
            Ok((services, q1)) => if q1 + 1 > b.len() {
                Err(DecodeError::Truncated)
            } else {
                let net = b[q1];
                match sp_varint_at(b, q1 + 1) {
                    Err(e) => Err(e),
                    Ok((alen, q2)) => if net == 1 && alen != 4 {
                        Err(DecodeError::InvalidAddressLength)
                    } else if net == 2 && alen != 16 {
                        Err(DecodeError::InvalidAddressLength)
                    } else if net != 1 && net != 2 && alen > MAX_ADDRV2_ADDR_LEN {
                        Err(DecodeError::InvalidAddressLength)
                    } else if q2 + alen + 2 > b.len() {
                        Err(DecodeError::Truncated)
                    } else {
                        let raw = b.subrange(q2, q2 + alen);
                        let port = spec_u16_from_be(b.subrange(q2 + alen, q2 + alen + 2));
                        match sp_addrv2_entries(b, q2 + alen + 2, (n - 1) as nat) {
                            Err(e) => Err(e),
                            Ok((rest, qf)) => if net == 1 {
                                Ok((
                                    seq![
                                        MetaAddrV {
                                            untrusted_last_seen: t,
                                            untrusted_services: services,
                                            ip: ipv4_mapped(raw),
                                            port,
                                        },
                                    ] + rest,
                                    qf,
                                ))
                            } else if net == 2 {
                                Ok((
                                    seq![
                                        MetaAddrV {
                                            untrusted_last_seen: t,
                                            untrusted_services: services,
                                            ip: raw,
                                            port,
                                        },
                                    ] + rest,
                                    qf,
                                ))
                            } else {
                                Ok((rest, qf))
                            },
                        }
                    },
                }
            },
        }
    }
}

/// An empty payload decodes to the dataless message `m`.
pub open spec fn sp_empty(p: Seq<u8>, m: MessageV) -> Result<MessageV, DecodeError> {
    if p.len() == 0 {
        Ok(m)
    } else {
        Err(DecodeError::LengthMismatch)
    }
}

/// A `ping` or `pong` payload: exactly one 8-byte nonce.
pub open spec fn sp_nonce(p: Seq<u8>) -> Result<u64, DecodeError> {
    if p.len() < 8 {
        Err(DecodeError::Truncated)
    } else if p.len() > 8 {
        Err(DecodeError::LengthMismatch)
    } else {
        Ok(spec_u64_from_le_bytes(p))
    }
}

/// A `version` payload.
pub open spec fn sp_version(p: Seq<u8>) -> Result<MessageV, DecodeError> {
    if p.len() < 80 {
        Err(DecodeError::Truncated)
    } else {
        let timestamp = spec_u64_from_le_bytes(p.subrange(12, 20)) as i64;
        if !(MIN_TIMESTAMP <= timestamp && timestamp <= MAX_TIMESTAMP) {
            Err(DecodeError::TimestampOutOfRange)
        } else {
            match sp_varstr_at(p, 80, MAX_USER_AGENT_LEN as int) {
                Err(e) => Err(e),
                Ok((ua, q)) => if q + 5 > p.len() {
                    Err(DecodeError::Truncated)
                } else if q + 5 < p.len() {
                    Err(DecodeError::LengthMismatch)
                } else {
                    let relay_byte = p[q + 4];
                    if relay_byte == 0 || relay_byte == 1 {
                        Ok(MessageV::Version {
                            version: spec_u32_from_le_bytes(p.subrange(0, 4)),
                            services: spec_u64_from_le_bytes(p.subrange(4, 12)),
                            timestamp,
                            address_recv: sp_addr_in_version_at(p, 20),
                            address_from: sp_addr_in_version_at(p, 46),
                            nonce: spec_u64_from_le_bytes(p.subrange(72, 80)),
                            user_agent: ua,
                            start_height: spec_u32_from_le_bytes(p.subrange(q, q + 4)),
                            relay: relay_byte == 1,
                        })
                    } else {
                        Err(DecodeError::InvalidRelayFlag)
                    }
                },
            }
        }
    }
}

/// A `reject` payload.
pub open spec fn sp_reject(p: Seq<u8>) -> Result<MessageV, DecodeError> {
    match sp_varstr_at(p, 0, MAX_REJECT_MESSAGE_LEN as int) {
        Err(e) => Err(e),
        Ok((message, q1)) => if q1 + 1 > p.len() {
            Err(DecodeError::Truncated)
        } else {
            match spec_reject_from_code(p[q1]) {
                None => Err(DecodeError::InvalidRejectCode),
                Some(ccode) => match sp_varstr_at(p, q1 + 1, MAX_REJECT_REASON_LEN as int) {
                    Err(e) => Err(e),
                    Ok((reason, q2)) => if p.len() == q2 {
                        Ok(MessageV::Reject { message, ccode, reason, data: None })
                    } else if p.len() == q2 + 32 {
                        Ok(
                            MessageV::Reject {
                                message,
                                ccode,
                                reason,
                                data: Some(p.subrange(q2, q2 + 32)),
                            },
                        )
                    } else {
                        Err(DecodeError::LengthMismatch)
                    },
                },
            }
        },
    }
}

/// An `addr` payload: a bounded count, then fixed-size entries.
pub open spec fn sp_addr(p: Seq<u8>) -> Result<MessageV, DecodeError> {
    match sp_varint_at(p, 0) {
        Err(e) => Err(e),
        Ok((n, q)) => if n > MAX_ADDRS_IN_MESSAGE {
            Err(DecodeError::CountOverMax)
        } else {
            match sp_addr_entries(p, q, n as nat) {
                Err(e) => Err(e),
                Ok((entries, qf)) => if qf == p.len() {
                    Ok(MessageV::Addr(entries))
                } else {
                    Err(DecodeError::LengthMismatch)
                },
            }
        },
    }
}

/// An `addrv2` payload: a bounded count, then self-describing entries.
pub open spec fn sp_addrv2(p: Seq<u8>) -> Result<MessageV, DecodeError> {
    match sp_varint_at(p, 0) {
        Err(e) => Err(e),
        Ok((n, q)) => if n > MAX_ADDRS_IN_MESSAGE {
            Err(DecodeError::CountOverMax)
        } else {
            match sp_addrv2_entries(p, q, n as nat) {
                Err(e) => Err(e),
                Ok((entries, qf)) => if qf == p.len() {
                    Ok(MessageV::Addr(entries))
                } else {
                    Err(DecodeError::LengthMismatch)
                },
            }
        },
    }
}

/// A `getblocks` or `getheaders` payload: a protocol version whose value is
/// ignored, known-block hashes, and a stop hash, where all zero means none.
pub open spec fn sp_locator(p: Seq<u8>) -> Result<(Seq<Seq<u8>>, Option<Seq<u8>>), DecodeError> {
    if p.len() < 4 {
        Err(DecodeError::Truncated)
    } else {
        match sp_varint_at(p, 4) {
            Err(e) => Err(e),
            Ok((n, q)) => if n > MAX_KNOWN_BLOCKS {
                Err(DecodeError::CountOverMax)
            } else {
                match sp_hash_entries(p, q, n as nat) {
                    Err(e) => Err(e),
                    Ok((kb, qh)) => if qh + 32 > p.len() {
                        Err(DecodeError::Truncated)
                    } else if qh + 32 < p.len() {
                        Err(DecodeError::LengthMismatch)
                    } else {
                        let stop_bytes = p.subrange(qh, qh + 32);
                        if stop_bytes == zero_hash() {
                            Ok((kb, None))
                        } else {
                            Ok((kb, Some(stop_bytes)))
                        }
                    },
                }
            },
        }
    }
}

/// An `inv`, `getdata` or `notfound` payload.
pub open spec fn sp_inv_msg(p: Seq<u8>) -> Result<Seq<InventoryHashV>, DecodeError> {
    match sp_varint_at(p, 0) {
        Err(e) => Err(e),
        Ok((n, q)) => if n > MAX_INV_IN_MESSAGE {
            Err(DecodeError::CountOverMax)
        } else {
            match sp_inv_entries(p, q, n as nat) {
                Err(e) => Err(e),
                Ok((invs, qf)) => if qf == p.len() {
                    Ok(invs)
                } else {
                    Err(DecodeError::LengthMismatch)
                },
            }
        },
    }
}

/// A `headers` payload.
pub open spec fn sp_headers_msg(p: Seq<u8>) -> Result<MessageV, DecodeError> {
    match sp_varint_at(p, 0) {
        Err(e) => Err(e),
        Ok((n, q)) => if n > MAX_HEADERS_IN_MESSAGE {
            Err(DecodeError::CountOverMax)
        } else {
            match sp_header_entries(p, q, n as nat) {
                Err(e) => Err(e),
                Ok((hs, qf)) => if qf == p.len() {
                    Ok(MessageV::Headers(hs))
                } else {
                    Err(DecodeError::LengthMismatch)
                },
            }
        },
    }
}

/// A `filterload` payload.
pub open spec fn sp_filterload(p: Seq<u8>) -> Result<MessageV, DecodeError> {
    match sp_varint_at(p, 0) {
        Err(e) => Err(e),
        Ok((flen, q)) => if flen > MAX_FILTER_LEN {
            Err(DecodeError::CountOverMax)
        } else if q + flen > p.len() {
            Err(DecodeError::Truncated)
        } else {
            let fend = q + flen;
            if fend + 9 > p.len() {
                Err(DecodeError::Truncated)
            } else if fend + 9 < p.len() {
                Err(DecodeError::LengthMismatch)
            } else {
                let hfc = spec_u32_from_le_bytes(p.subrange(fend, fend + 4));
                if hfc > MAX_FILTER_HASH_FUNCS {
                    Err(DecodeError::CountOverMax)
                } else {
                    Ok(MessageV::FilterLoad {
                        filter: p.subrange(q, fend),
                        hash_functions_count: hfc,
                        tweak: spec_u32_from_le_bytes(p.subrange(fend + 4, fend + 8)),
                        flags: p[fend + 8],
                    })
                }
            }
        },
    }
}

/// A `filteradd` payload.
pub open spec fn sp_filteradd(p: Seq<u8>) -> Result<MessageV, DecodeError> {
    match sp_varint_at(p, 0) {
        Err(e) => Err(e),
        Ok((dlen, q)) => if dlen > MAX_FILTER_ADD_LEN {
            Err(DecodeError::CountOverMax)
        } else if q + dlen > p.len() {
            Err(DecodeError::Truncated)
        } else if q + dlen < p.len() {
            Err(DecodeError::LengthMismatch)
        } else {
            Ok(MessageV::FilterAdd { data: p.subrange(q, q + dlen) })
        },
    }
}

/// The payload parser for each command.
pub open spec fn sp_payload_of(id: CmdId, p: Seq<u8>) -> Result<MessageV, DecodeError> {
    match id {
        CmdId::Version => sp_version(p),
        CmdId::Verack => sp_empty(p, MessageV::Verack),
        CmdId::Ping => match sp_nonce(p) {
            Ok(n) => Ok(MessageV::Ping(n)),
            Err(e) => Err(e),
        },
        CmdId::Pong => match sp_nonce(p) {
            Ok(n) => Ok(MessageV::Pong(n)),
            Err(e) => Err(e),
        },
        CmdId::Reject => sp_reject(p),
        CmdId::GetAddr => sp_empty(p, MessageV::GetAddr),
        CmdId::Addr => sp_addr(p),
        CmdId::AddrV2 => sp_addrv2(p),
        CmdId::GetBlocks => match sp_locator(p) {
            Ok((kb, stop)) => Ok(MessageV::GetBlocks { known_blocks: kb, stop }),
            Err(e) => Err(e),
        },
        CmdId::Inv => match sp_inv_msg(p) {
            Ok(invs) => Ok(MessageV::Inv(invs)),
            Err(e) => Err(e),
        },
        CmdId::GetHeaders => match sp_locator(p) {
            Ok((kb, stop)) => Ok(MessageV::GetHeaders { known_blocks: kb, stop }),
            Err(e) => Err(e),
        },
        CmdId::Headers => sp_headers_msg(p),
        CmdId::GetData => match sp_inv_msg(p) {
            Ok(invs) => Ok(MessageV::GetData(invs)),
            Err(e) => Err(e),
        },
        CmdId::Block => Ok(MessageV::Block(p)),
        CmdId::Tx => Ok(MessageV::Tx(p)),
        CmdId::NotFound => match sp_inv_msg(p) {
            Ok(invs) => Ok(MessageV::NotFound(invs)),
            Err(e) => Err(e),
        },
        CmdId::Mempool => sp_empty(p, MessageV::Mempool),
        CmdId::FilterLoad => sp_filterload(p),
        CmdId::FilterAdd => sp_filteradd(p),
        CmdId::FilterClear => sp_empty(p, MessageV::FilterClear),
    }
}

/// Which command a 12-byte command field names, if any.
pub open spec fn sp_command(c: Seq<u8>) -> Option<CmdId> {
    crate::commands::command_id(c)
}

/// The whole-frame parser: the single definition of what any byte sequence
/// decodes to. Framing is checked first — length, magic, declared payload
/// length against the actual bytes, then the checksum — and only then is the
/// payload interpreted under its command.
pub open spec fn sp_message(b: Seq<u8>) -> Result<MessageV, DecodeError> {
    if b.len() < 24 {
        Err(DecodeError::Truncated)
    } else if b.subrange(0, 4) != magic() {
        Err(DecodeError::BadMagic)
    } else {
        let plen = spec_u32_from_le_bytes(b.subrange(16, 20)) as int;
        if plen > MAX_PAYLOAD_LEN {
            Err(DecodeError::OversizedPayload)
        } else if b.len() - 24 != plen {
            Err(DecodeError::LengthMismatch)
        } else {
            let payload = b.subrange(24, b.len() as int);
            if b.subrange(20, 24) != checksum_spec(payload) {
                Err(DecodeError::BadChecksum)
            } else {
                match sp_command(b.subrange(4, 16)) {
                    None => Err(DecodeError::UnknownCommand),
                    Some(id) => sp_payload_of(id, payload),
                }
            }
        }
    }
}


/// Read a length-prefixed text field.
fn parse_varstr(p: &Vec<u8>, pos: usize, maxlen: usize) -> (r: Result<(String, usize), DecodeError>)
    requires
        pos <= p@.len(),
        maxlen <= 0xFFFF_FFFF,
    ensures
        (r matches Ok(t) ==> sp_varstr_at(p@, pos as int, maxlen as int) == Ok::<
            (Seq<char>, int),
            DecodeError,
        >((t.0@, t.1 as int)) && t.1 <= p@.len() && encode_utf8(t.0@).len() <= maxlen),
        (r matches Err(e) ==> sp_varstr_at(p@, pos as int, maxlen as int) == Err::<
            (Seq<char>, int),
            DecodeError,
        >(e)),
{
    let (n, q) = match read_varint(p, pos) {
        Ok(t) => t,
        Err(e) => {
            return Err(e);
        },
    };
    if n > maxlen as u64 {
        return Err(DecodeError::CountOverMax);
    }
    let (bytes, q2) = match read_bytes(p, q, n as usize) {
        Ok(t) => t,
        Err(e) => {
            return Err(e);
        },
    };
    let ghost bv = bytes@;
    match bytes_to_string(bytes) {
        Some(s) => {
            proof {
                vstd::utf8::decode_utf8_encode_utf8(bv);
            }
            Ok((s, q2))
        },
        None => Err(DecodeError::InvalidText),
    }
}

/// Relies on String::from_utf8: it succeeds exactly on valid UTF-8 input
/// and returns the characters those bytes encode.
#[verifier::external_body]
fn bytes_to_string(v: Vec<u8>) -> (r: Option<String>)
    ensures
        (r matches Some(s) ==> valid_utf8(v@) && s@ == decode_utf8(v@)),
        (r is None ==> !valid_utf8(v@)),
{
    String::from_utf8(v).ok()
}

/// Read one address-with-services entry of a `version` message.
fn parse_addr_in_version(p: &Vec<u8>, pos: usize) -> (r: AddrInVersion)
    requires
        pos + 26 <= p@.len(),
    ensures
        r@ == sp_addr_in_version_at(p@, pos as int),
        r.ip@.len() == 16,
{
    let pl = p.len();
    proof {
        assert(pos + 26 <= pl);
    }
    let (services, c1) = match read_u64_le(p, pos) {
        Ok(t) => t,
        Err(_) => {
            proof {
                assert(false);
            }
            (0, pos)
        },
    };
    let (ipv, c2) = match read_bytes(p, c1, 16) {
        Ok(t) => t,
        Err(_) => {
            proof {
                assert(false);
            }
            (Vec::new(), c1)
        },
    };
    let (port, _c3) = match read_u16_be(p, c2) {
        Ok(t) => t,
        Err(_) => {
            proof {
                assert(false);
            }
            (0, c2)
        },
    };
    AddrInVersion { untrusted_services: services, ip: ipv, port }
}

/// Read `n` fixed-size `addr` entries.
fn parse_addr_entries(p: &Vec<u8>, pos: usize, n: u64) -> (r: Result<
    (Vec<MetaAddr>, usize),
    DecodeError,
>)
    requires
        pos <= p@.len(),
        n <= MAX_ADDRS_IN_MESSAGE,
    ensures
        (r matches Ok(t) ==> sp_addr_entries(p@, pos as int, n as nat) == Ok::<
            (Seq<MetaAddrV>, int),
            DecodeError,
        >((addrs_view(t.0@), t.1 as int)) && t.1 <= p@.len() && t.0@.len() == n && (forall|j: int|
            0 <= j < t.0@.len() ==> wf_meta_addr(#[trigger] addrs_view(t.0@)[j]))),
        (r matches Err(e) ==> sp_addr_entries(p@, pos as int, n as nat) == Err::<
            (Seq<MetaAddrV>, int),
            DecodeError,
        >(e)),
{
    let nn = n as usize;
    let mut acc: Vec<MetaAddr> = Vec::new();
    let mut cur: usize = pos;
    let mut i: usize = 0;
    proof {
        assert(acc@ =~= Seq::<MetaAddr>::empty());
        match sp_addr_entries(p@, pos as int, n as nat) {
            Ok(t2) => {
                assert(addrs_view(acc@) + t2.0 =~= t2.0);
            },
            Err(_) => {},
        }
    }
    while i < nn
        invariant
            i <= nn,
            nn == n,
            pos <= p@.len(),
            cur <= p@.len(),
            acc@.len() == i,
            forall|j: int| 0 <= j < acc@.len() ==> wf_meta_addr(#[trigger] addrs_view(acc@)[j]),
            (sp_addr_entries(p@, cur as int, (n as int - i as int) as nat) matches Ok(t2)
                ==> sp_addr_entries(p@, pos as int, n as nat) == Ok::<
                (Seq<MetaAddrV>, int),
                DecodeError,
            >((addrs_view(acc@) + t2.0, t2.1))),
            (sp_addr_entries(p@, cur as int, (n as int - i as int) as nat) matches Err(e2)
                ==> sp_addr_entries(p@, pos as int, n as nat) == Err::<
                (Seq<MetaAddrV>, int),
                DecodeError,
            >(e2)),
        decreases nn - i,
    {
        let ghost rem0 = (n as int - i as int) as nat;
        let ghost cur0 = cur as int;
        let ghost acc0 = acc@;
        if p.len() - cur < 30 {
            return Err(DecodeError::Truncated);
        }
        let (last_seen, c1) = match read_u32_le(p, cur) {
            Ok(t) => t,
            Err(e) => {
                return Err(e);
            },
        };
        let (services, c2) = match read_u64_le(p, c1) {
            Ok(t) => t,
            Err(e) => {
                return Err(e);
            },
        };
        let (ipv, c3) = match read_bytes(p, c2, 16) {
            Ok(t) => t,
            Err(e) => {
                return Err(e);
            },
        };
        let (port, c4) = match read_u16_be(p, c3) {
            Ok(t) => t,
            Err(e) => {
                return Err(e);
            },
        };
        let entry = MetaAddr {
            untrusted_last_seen: last_seen,
            untrusted_services: services,
            ip: ipv,
            port,
        };
        proof {
            assert(entry@ == sp_addr_entry_at(p@, cur0));
        }
        acc.push(entry);
        cur = c4;
        i = i + 1;
        proof {
            assert(acc@ == acc0.push(entry));
            assert(addrs_view(acc@) =~= addrs_view(acc0) + seq![entry@]);
            match sp_addr_entries(p@, cur as int, (n as int - i as int) as nat) {
                Ok(t3) => {
                    assert(sp_addr_entries(p@, cur0, rem0) == Ok::<
                        (Seq<MetaAddrV>, int),
                        DecodeError,
                    >((seq![sp_addr_entry_at(p@, cur0)] + t3.0, t3.1)));
                    assert(addrs_view(acc0) + (seq![entry@] + t3.0) =~= addrs_view(acc@) + t3.0);
                },
                Err(e3) => {
                    assert(sp_addr_entries(p@, cur0, rem0) == Err::<
                        (Seq<MetaAddrV>, int),
                        DecodeError,
                    >(e3));
                },
            }
        }
    }
    proof {
        assert(sp_addr_entries(p@, cur as int, 0) == Ok::<(Seq<MetaAddrV>, int), DecodeError>((
            Seq::<MetaAddrV>::empty(),
            cur as int,
        )));
        assert(addrs_view(acc@) + Seq::<MetaAddrV>::empty() =~= addrs_view(acc@));
    }
    Ok((acc, cur))
}

/// Read `n` inventory entries.
fn parse_inv_entries(p: &Vec<u8>, pos: usize, n: u64) -> (r: Result<
    (Vec<InventoryHash>, usize),
    DecodeError,
>)
    requires
        pos <= p@.len(),
        n <= MAX_INV_IN_MESSAGE,
    ensures
        (r matches Ok(t) ==> sp_inv_entries(p@, pos as int, n as nat) == Ok::<
            (Seq<InventoryHashV>, int),
            DecodeError,
        >((invs_view(t.0@), t.1 as int)) && t.1 <= p@.len() && t.0@.len() == n && (forall|j: int|
            0 <= j < t.0@.len() ==> wf_inventory(#[trigger] invs_view(t.0@)[j]))),
        (r matches Err(e) ==> sp_inv_entries(p@, pos as int, n as nat) == Err::<
            (Seq<InventoryHashV>, int),
            DecodeError,
        >(e)),
{
    let nn = n as usize;
    let mut acc: Vec<InventoryHash> = Vec::new();
    let mut cur: usize = pos;
    let mut i: usize = 0;
    proof {
        assert(acc@ =~= Seq::<InventoryHash>::empty());
        match sp_inv_entries(p@, pos as int, n as nat) {
            Ok(t2) => {
                assert(invs_view(acc@) + t2.0 =~= t2.0);
            },
            Err(_) => {},
        }
    }
    while i < nn
        invariant
            i <= nn,
            nn == n,
            pos <= p@.len(),
            cur <= p@.len(),
            acc@.len() == i,
            forall|j: int| 0 <= j < acc@.len() ==> wf_inventory(#[trigger] invs_view(acc@)[j]),
            (sp_inv_entries(p@, cur as int, (n as int - i as int) as nat) matches Ok(t2)
                ==> sp_inv_entries(p@, pos as int, n as nat) == Ok::<
                (Seq<InventoryHashV>, int),
                DecodeError,
            >((invs_view(acc@) + t2.0, t2.1))),
            (sp_inv_entries(p@, cur as int, (n as int - i as int) as nat) matches Err(e2)
                ==> sp_inv_entries(p@, pos as int, n as nat) == Err::<
                (Seq<InventoryHashV>, int),
                DecodeError,
            >(e2)),
        decreases nn - i,
    {
        let ghost rem0 = (n as int - i as int) as nat;
        let ghost cur0 = cur as int;
        let ghost acc0 = acc@;
        if p.len() - cur < 36 {
            return Err(DecodeError::Truncated);
        }
        let (code, c1) = match read_u32_le(p, cur) {
            Ok(t) => t,
            Err(e) => {
                return Err(e);
            },
        };
        let kind = match InvKind::from_code(code) {
            Some(k) => k,
            None => {
                return Err(DecodeError::InvalidInventoryKind);
            },
        };
        let (hash, c2) = match read_bytes(p, c1, 32) {
            Ok(t) => t,
            Err(e) => {
                return Err(e);
            },
        };
        let entry = InventoryHash { kind, hash };
        proof {
            assert(sp_inv_entry_at(p@, cur0) == Some(entry@));
        }
        acc.push(entry);
        cur = c2;
        i = i + 1;
        proof {
            assert(acc@ == acc0.push(entry));
            assert(invs_view(acc@) =~= invs_view(acc0) + seq![entry@]);
            match sp_inv_entries(p@, cur as int, (n as int - i as int) as nat) {
                Ok(t3) => {
                    assert(sp_inv_entries(p@, cur0, rem0) == Ok::<
                        (Seq<InventoryHashV>, int),
                        DecodeError,
                    >((seq![entry@] + t3.0, t3.1)));
                    assert(invs_view(acc0) + (seq![entry@] + t3.0) =~= invs_view(acc@) + t3.0);
                },
                Err(e3) => {
                    assert(sp_inv_entries(p@, cur0, rem0) == Err::<
                        (Seq<InventoryHashV>, int),
                        DecodeError,
                    >(e3));
                },
            }
        }
    }
    proof {
        assert(sp_inv_entries(p@, cur as int, 0) == Ok::<(Seq<InventoryHashV>, int), DecodeError>(
            (Seq::<InventoryHashV>::empty(), cur as int),
        ));
        assert(invs_view(acc@) + Seq::<InventoryHashV>::empty() =~= invs_view(acc@));
    }
    Ok((acc, cur))
}

/// Read `n` 32-byte hashes.
fn parse_hash_entries(p: &Vec<u8>, pos: usize, n: u64) -> (r: Result<
    (Vec<Vec<u8>>, usize),
    DecodeError,
>)
    requires
        pos <= p@.len(),
        n <= MAX_KNOWN_BLOCKS,
    ensures
        (r matches Ok(t) ==> sp_hash_entries(p@, pos as int, n as nat) == Ok::<
            (Seq<Seq<u8>>, int),
            DecodeError,
        >((hashes_view(t.0@), t.1 as int)) && t.1 <= p@.len() && t.0@.len() == n && (forall|j: int|
            0 <= j < t.0@.len() ==> (#[trigger] hashes_view(t.0@)[j]).len() == 32)),
        (r matches Err(e) ==> sp_hash_entries(p@, pos as int, n as nat) == Err::<
            (Seq<Seq<u8>>, int),
            DecodeError,
        >(e)),
{
    let nn = n as usize;
    let mut acc: Vec<Vec<u8>> = Vec::new();
    let mut cur: usize = pos;
    let mut i: usize = 0;
    proof {
        assert(acc@ =~= Seq::<Vec<u8>>::empty());
        match sp_hash_entries(p@, pos as int, n as nat) {
            Ok(t2) => {
                assert(hashes_view(acc@) + t2.0 =~= t2.0);
            },
            Err(_) => {},
        }
    }
    while i < nn
        invariant
            i <= nn,
            nn == n,
            pos <= p@.len(),
            cur <= p@.len(),
            acc@.len() == i,
            forall|j: int| 0 <= j < acc@.len() ==> (#[trigger] hashes_view(acc@)[j]).len() == 32,
            (sp_hash_entries(p@, cur as int, (n as int - i as int) as nat) matches Ok(t2)
                ==> sp_hash_entries(p@, pos as int, n as nat) == Ok::<
                (Seq<Seq<u8>>, int),
                DecodeError,
            >((hashes_view(acc@) + t2.0, t2.1))),
            (sp_hash_entries(p@, cur as int, (n as int - i as int) as nat) matches Err(e2)
                ==> sp_hash_entries(p@, pos as int, n as nat) == Err::<
                (Seq<Seq<u8>>, int),
                DecodeError,
            >(e2)),
        decreases nn - i,
    {
        let ghost rem0 = (n as int - i as int) as nat;
        let ghost cur0 = cur as int;
        let ghost acc0 = acc@;
        if p.len() - cur < 32 {
            return Err(DecodeError::Truncated);
        }
        let (hash, c1) = match read_bytes(p, cur, 32) {
            Ok(t) => t,
            Err(e) => {
                return Err(e);
            },
        };
        let ghost hv = hash@;
        acc.push(hash);
        cur = c1;
        i = i + 1;
        proof {
            assert(hashes_view(acc@) =~= hashes_view(acc0) + seq![hv]);
            match sp_hash_entries(p@, cur as int, (n as int - i as int) as nat) {
                Ok(t3) => {
                    assert(sp_hash_entries(p@, cur0, rem0) == Ok::<
                        (Seq<Seq<u8>>, int),
                        DecodeError,
                    >((seq![p@.subrange(cur0, cur0 + 32)] + t3.0, t3.1)));
                    assert(hashes_view(acc0) + (seq![hv] + t3.0) =~= hashes_view(acc@) + t3.0);
                },
                Err(e3) => {
                    assert(sp_hash_entries(p@, cur0, rem0) == Err::<
                        (Seq<Seq<u8>>, int),
                        DecodeError,
                    >(e3));
                },
            }
        }
    }
    proof {
        assert(sp_hash_entries(p@, cur as int, 0) == Ok::<(Seq<Seq<u8>>, int), DecodeError>((
            Seq::<Seq<u8>>::empty(),
            cur as int,
        )));
        assert(hashes_view(acc@) + Seq::<Seq<u8>>::empty() =~= hashes_view(acc@));
    }
    Ok((acc, cur))
}

/// Read `n` header entries.
fn parse_header_entries(p: &Vec<u8>, pos: usize, n: u64) -> (r: Result<
    (Vec<CountedHeader>, usize),
    DecodeError,
>)
    requires
        pos <= p@.len(),
        n <= MAX_HEADERS_IN_MESSAGE,
    ensures
        (r matches Ok(t) ==> sp_header_entries(p@, pos as int, n as nat) == Ok::<
            (Seq<CountedHeaderV>, int),
            DecodeError,
        >((headers_view(t.0@), t.1 as int)) && t.1 <= p@.len() && t.0@.len() == n && (forall|
            j: int,
        |
            0 <= j < t.0@.len() ==> wf_counted_header(#[trigger] headers_view(t.0@)[j]))),
        (r matches Err(e) ==> sp_header_entries(p@, pos as int, n as nat) == Err::<
            (Seq<CountedHeaderV>, int),
            DecodeError,
        >(e)),
{
    let nn = n as usize;
    let mut acc: Vec<CountedHeader> = Vec::new();
    let mut cur: usize = pos;
    let mut i: usize = 0;
    proof {
        assert(acc@ =~= Seq::<CountedHeader>::empty());
        match sp_header_entries(p@, pos as int, n as nat) {
            Ok(t2) => {
                assert(headers_view(acc@) + t2.0 =~= t2.0);
            },
            Err(_) => {},
        }
    }
    while i < nn
        invariant
            i <= nn,
            nn == n,
            pos <= p@.len(),
            cur <= p@.len(),
            acc@.len() == i,
            forall|j: int| 0 <= j < acc@.len() ==> wf_counted_header(
                #[trigger] headers_view(acc@)[j],
            ),
            (sp_header_entries(p@, cur as int, (n as int - i as int) as nat) matches Ok(t2)
                ==> sp_header_entries(p@, pos as int, n as nat) == Ok::<
                (Seq<CountedHeaderV>, int),
                DecodeError,
            >((headers_view(acc@) + t2.0, t2.1))),
            (sp_header_entries(p@, cur as int, (n as int - i as int) as nat) matches Err(e2)
                ==> sp_header_entries(p@, pos as int, n as nat) == Err::<
                (Seq<CountedHeaderV>, int),
                DecodeError,
            >(e2)),
        decreases nn - i,
    {
        let ghost rem0 = (n as int - i as int) as nat;
        let ghost cur0 = cur as int;
        let ghost acc0 = acc@;
        if p.len() - cur < 80 {
            return Err(DecodeError::Truncated);
        }
        let (header, c1) = match read_bytes(p, cur, 80) {
            Ok(t) => t,
            Err(e) => {
                return Err(e);
            },
        };
        let (count, c2) = match read_varint(p, c1) {
            Ok(t) => t,
            Err(e) => {
                return Err(e);
            },
        };
        let entry = CountedHeader { header, transaction_count: count };
        proof {
            assert(entry@.header =~= p@.subrange(cur0, cur0 + 80));
        }
        acc.push(entry);
        cur = c2;
        i = i + 1;
        proof {
            assert(acc@ == acc0.push(entry));
            assert(headers_view(acc@) =~= headers_view(acc0) + seq![entry@]);
            match sp_header_entries(p@, cur as int, (n as int - i as int) as nat) {
                Ok(t3) => {
                    assert(sp_header_entries(p@, cur0, rem0) == Ok::<
                        (Seq<CountedHeaderV>, int),
                        DecodeError,
                    >((seq![entry@] + t3.0, t3.1)));
                    assert(headers_view(acc0) + (seq![entry@] + t3.0) =~= headers_view(acc@)
                        + t3.0);
                },
                Err(e3) => {
                    assert(sp_header_entries(p@, cur0, rem0) == Err::<
                        (Seq<CountedHeaderV>, int),
                        DecodeError,
                    >(e3));
                },
            }
        }
    }
    proof {
        assert(sp_header_entries(p@, cur as int, 0) == Ok::<
            (Seq<CountedHeaderV>, int),
            DecodeError,
        >((Seq::<CountedHeaderV>::empty(), cur as int)));
        assert(headers_view(acc@) + Seq::<CountedHeaderV>::empty() =~= headers_view(acc@));
    }
    Ok((acc, cur))
}


/// Turn a 4-byte IPv4 address into its 16-byte mapped form.
fn map4to16(raw: &Vec<u8>) -> (r: Vec<u8>)
    requires
        raw@.len() == 4,
    ensures
        r@ == ipv4_mapped(raw@),
        r@.len() == 16,
{
    let mut out: Vec<u8> = Vec::new();
    let mut i: usize = 0;
    while i < 10
        invariant
            i <= 10,
            out@.len() == i,
            forall|j: int| 0 <= j < i ==> out@[j] == 0,
        decreases 10 - i,
    {
        out.push(0);
        i = i + 1;
    }
    out.push(0xFF);
    out.push(0xFF);
    out.push(raw[0]);
    out.push(raw[1]);
    out.push(raw[2]);
    out.push(raw[3]);
    proof {
        assert(out@ =~= ipv4_mapped(raw@));
    }
    out
}

/// Read `n` `addrv2` entries, keeping the recognized ones.
fn parse_addrv2_entries(p: &Vec<u8>, pos: usize, n: u64) -> (r: Result<
    (Vec<MetaAddr>, usize),
    DecodeError,
>)
    requires
        pos <= p@.len(),
        n <= MAX_ADDRS_IN_MESSAGE,
    ensures
        (r matches Ok(t) ==> sp_addrv2_entries(p@, pos as int, n as nat) == Ok::<
            (Seq<MetaAddrV>, int),
            DecodeError,
        >((addrs_view(t.0@), t.1 as int)) && t.1 <= p@.len() && t.0@.len() <= n && (forall|j: int|
            0 <= j < t.0@.len() ==> wf_meta_addr(#[trigger] addrs_view(t.0@)[j]))),
        (r matches Err(e) ==> sp_addrv2_entries(p@, pos as int, n as nat) == Err::<
            (Seq<MetaAddrV>, int),
            DecodeError,
        >(e)),
{
    let nn = n as usize;
    let mut acc: Vec<MetaAddr> = Vec::new();
    let mut cur: usize = pos;
    let mut i: usize = 0;
    proof {
        assert(acc@ =~= Seq::<MetaAddr>::empty());
        match sp_addrv2_entries(p@, pos as int, n as nat) {
            Ok(t2) => {
                assert(addrs_view(acc@) + t2.0 =~= t2.0);
            },
            Err(_) => {},
        }
    }
    while i < nn
        invariant
            i <= nn,
            nn == n,
            pos <= p@.len(),
            cur <= p@.len(),
            acc@.len() <= i,
            forall|j: int| 0 <= j < acc@.len() ==> wf_meta_addr(#[trigger] addrs_view(acc@)[j]),
            (sp_addrv2_entries(p@, cur as int, (n as int - i as int) as nat) matches Ok(t2)
                ==> sp_addrv2_entries(p@, pos as int, n as nat) == Ok::<
                (Seq<MetaAddrV>, int),
                DecodeError,
            >((addrs_view(acc@) + t2.0, t2.1))),
            (sp_addrv2_entries(p@, cur as int, (n as int - i as int) as nat) matches Err(e2)
                ==> sp_addrv2_entries(p@, pos as int, n as nat) == Err::<
                (Seq<MetaAddrV>, int),
                DecodeError,
            >(e2)),
        decreases nn - i,
    {
        let ghost rem0 = (n as int - i as int) as nat;
        let ghost cur0 = cur as int;
        let ghost acc0 = acc@;
        let pl = p.len();
        let (t, c1) = match read_u32_le(p, cur) {
            Ok(t) => t,
            Err(e) => {
                return Err(e);
            },
        };
        let (services, c2) = match read_varint(p, c1) {
            Ok(t) => t,
            Err(e) => {
                return Err(e);
            },
        };
        let (net, c3) = match read_u8(p, c2) {
            Ok(t) => t,
            Err(e) => {
                return Err(e);
            },
        };
        let (alen, c4) = match read_varint(p, c3) {
            Ok(t) => t,
            Err(e) => {
                return Err(e);
            },
        };
        if net == 1 && alen != 4 {
            return Err(DecodeError::InvalidAddressLength);
        }
        if net == 2 && alen != 16 {
            return Err(DecodeError::InvalidAddressLength);
        }
        if net != 1 && net != 2 && alen > MAX_ADDRV2_ADDR_LEN as u64 {
            return Err(DecodeError::InvalidAddressLength);
        }
        let (raw, c5) = match read_bytes(p, c4, alen as usize) {
            Ok(t) => t,
            Err(e) => {
                return Err(e);
            },
        };
        let (port, c6) = match read_u16_be(p, c5) {
            Ok(t) => t,
            Err(e) => {
                return Err(e);
            },
        };
        if net == 1 {
            let ip = map4to16(&raw);
            let entry = MetaAddr {
                untrusted_last_seen: t,
                untrusted_services: services,
                ip,
                port,
            };
            acc.push(entry);
            proof {
                assert(acc@ == acc0.push(entry));
                assert(addrs_view(acc@) =~= addrs_view(acc0) + seq![entry@]);
            }
        } else if net == 2 {
            let entry = MetaAddr {
                untrusted_last_seen: t,
                untrusted_services: services,
                ip: raw,
                port,
            };
            acc.push(entry);
            proof {
                assert(acc@ == acc0.push(entry));
                assert(addrs_view(acc@) =~= addrs_view(acc0) + seq![entry@]);
            }
        }
        cur = c6;
        i = i + 1;
        proof {
            match sp_addrv2_entries(p@, cur as int, (n as int - i as int) as nat) {
                Ok(t3) => {
                    if acc@.len() > acc0.len() {
                        let e = acc@[acc@.len() - 1]@;
                        assert(sp_addrv2_entries(p@, cur0, rem0) == Ok::<
                            (Seq<MetaAddrV>, int),
                            DecodeError,
                        >((seq![e] + t3.0, t3.1)));
                        assert(addrs_view(acc0) + (seq![e] + t3.0) =~= addrs_view(acc@) + t3.0);
                    } else {
                        assert(sp_addrv2_entries(p@, cur0, rem0) == Ok::<
                            (Seq<MetaAddrV>, int),
                            DecodeError,
                        >((t3.0, t3.1)));
                        assert(addrs_view(acc@) + t3.0 =~= addrs_view(acc0) + t3.0);
                    }
                },
                Err(e3) => {
                    assert(sp_addrv2_entries(p@, cur0, rem0) == Err::<
                        (Seq<MetaAddrV>, int),
                        DecodeError,
                    >(e3));
                },
            }
        }
    }
    proof {
        assert(sp_addrv2_entries(p@, cur as int, 0) == Ok::<(Seq<MetaAddrV>, int), DecodeError>((
            Seq::<MetaAddrV>::empty(),
            cur as int,
        )));
        assert(addrs_view(acc@) + Seq::<MetaAddrV>::empty() =~= addrs_view(acc@));
    }
    Ok((acc, cur))
}

/// Parse a `version` payload.
fn parse_version(p: &Vec<u8>) -> (r: Result<Message, DecodeError>)
    ensures
        (r matches Ok(m) ==> sp_version(p@) == Ok::<MessageV, DecodeError>(m@) && wf_message(m@)),
        (r matches Err(e) ==> sp_version(p@) == Err::<MessageV, DecodeError>(e)),
{
    if p.len() < 80 {
        return Err(DecodeError::Truncated);
    }
    let (version, _c0) = match read_u32_le(p, 0) {
        Ok(t) => t,
        Err(e) => {
            return Err(e);
        },
    };
    let (services, _c1) = match read_u64_le(p, 4) {
        Ok(t) => t,
        Err(e) => {
            return Err(e);
        },
    };
    let (tsu, _c2) = match read_u64_le(p, 12) {
        Ok(t) => t,
        Err(e) => {
            return Err(e);
        },
    };
    let timestamp = tsu as i64;
    if !valid_timestamp(timestamp) {
        return Err(DecodeError::TimestampOutOfRange);
    }
    let address_recv = parse_addr_in_version(p, 20);
    let address_from = parse_addr_in_version(p, 46);
    let (nonce, _c3) = match read_u64_le(p, 72) {
        Ok(t) => t,
        Err(e) => {
            return Err(e);
        },
    };
    let (user_agent, q) = match parse_varstr(p, 80, MAX_USER_AGENT_LEN) {
        Ok(t) => t,
        Err(e) => {
            return Err(e);
        },
    };
    if p.len() - q < 5 {
        return Err(DecodeError::Truncated);
    }
    if p.len() - q > 5 {
        return Err(DecodeError::LengthMismatch);
    }
    let (start_height, q2) = match read_u32_le(p, q) {
        Ok(t) => t,
        Err(e) => {
            return Err(e);
        },
    };
    let (relay_byte, _q3) = match read_u8(p, q2) {
        Ok(t) => t,
        Err(e) => {
            return Err(e);
        },
    };
    let relay = if relay_byte == 1 {
        true
    } else if relay_byte == 0 {
        false
    } else {
        return Err(DecodeError::InvalidRelayFlag);
    };
    let msg = Message::Version {
        version,
        services,
        timestamp,
        address_recv,
        address_from,
        nonce,
        user_agent,
        start_height,
        relay,
    };
    proof {
        assert(sp_version(p@) == Ok::<MessageV, DecodeError>(msg@));
    }
    Ok(msg)
}

/// Parse a `reject` payload.
fn parse_reject(p: &Vec<u8>) -> (r: Result<Message, DecodeError>)
    ensures
        (r matches Ok(m) ==> sp_reject(p@) == Ok::<MessageV, DecodeError>(m@) && wf_message(m@)),
        (r matches Err(e) ==> sp_reject(p@) == Err::<MessageV, DecodeError>(e)),
{
    let (message, q1) = match parse_varstr(p, 0, MAX_REJECT_MESSAGE_LEN) {
        Ok(t) => t,
        Err(e) => {
            return Err(e);
        },
    };
    if p.len() - q1 < 1 {
        return Err(DecodeError::Truncated);
    }
    let (code_b, q1b) = match read_u8(p, q1) {
        Ok(t) => t,
        Err(e) => {
            return Err(e);
        },
    };
    let ccode = match RejectReason::from_code(code_b) {
        Some(c) => c,
        None => {
            return Err(DecodeError::InvalidRejectCode);
        },
    };
    let (reason, q2) = match parse_varstr(p, q1b, MAX_REJECT_REASON_LEN) {
        Ok(t) => t,
        Err(e) => {
            return Err(e);
        },
    };
    if p.len() == q2 {
        Ok(Message::Reject { message, ccode, reason, data: None })
    } else if p.len() - q2 == 32 {
        let (d, _) = match read_bytes(p, q2, 32) {
            Ok(t) => t,
            Err(e) => {
                return Err(e);
            },
        };
        Ok(Message::Reject { message, ccode, reason, data: Some(d) })
    } else {
        Err(DecodeError::LengthMismatch)
    }
}

/// Parse an `addr` payload.
fn parse_addr_msg(p: &Vec<u8>) -> (r: Result<Message, DecodeError>)
    ensures
        (r matches Ok(m) ==> sp_addr(p@) == Ok::<MessageV, DecodeError>(m@) && wf_message(m@)),
        (r matches Err(e) ==> sp_addr(p@) == Err::<MessageV, DecodeError>(e)),
{
    let (n, q) = match read_varint(p, 0) {
        Ok(t) => t,
        Err(e) => {
            return Err(e);
        },
    };
    if n > MAX_ADDRS_IN_MESSAGE as u64 {
        return Err(DecodeError::CountOverMax);
    }
    let (entries, qf) = match parse_addr_entries(p, q, n) {
        Ok(t) => t,
        Err(e) => {
            return Err(e);
        },
    };
    if qf != p.len() {
        return Err(DecodeError::LengthMismatch);
    }
    Ok(Message::Addr(entries))
}

/// Parse an `addrv2` payload.
fn parse_addrv2_msg(p: &Vec<u8>) -> (r: Result<Message, DecodeError>)
    ensures
        (r matches Ok(m) ==> sp_addrv2(p@) == Ok::<MessageV, DecodeError>(m@) && wf_message(m@)),
        (r matches Err(e) ==> sp_addrv2(p@) == Err::<MessageV, DecodeError>(e)),
{
    let (n, q) = match read_varint(p, 0) {
        Ok(t) => t,
        Err(e) => {
            return Err(e);
        },
    };
    if n > MAX_ADDRS_IN_MESSAGE as u64 {
        return Err(DecodeError::CountOverMax);
    }
    let (entries, qf) = match parse_addrv2_entries(p, q, n) {
        Ok(t) => t,
        Err(e) => {
            return Err(e);
        },
    };
    if qf != p.len() {
        return Err(DecodeError::LengthMismatch);
    }
    Ok(Message::Addr(entries))
}

/// Parse a `getblocks` or `getheaders` payload.
fn parse_locator(p: &Vec<u8>) -> (r: Result<(Vec<Vec<u8>>, Option<Vec<u8>>), DecodeError>)
    ensures
        (r matches Ok(t) ==> sp_locator(p@) == Ok::<(Seq<Seq<u8>>, Option<Seq<u8>>), DecodeError>(
            (
                hashes_view(t.0@),
                match t.1 {
                    Some(h) => Some(h@),
                    None => None,
                },
            ),
        ) && wf_block_locator(
            hashes_view(t.0@),
            match t.1 {
                Some(h) => Some(h@),
                None => None,
            },
        )),
        (r matches Err(e) ==> sp_locator(p@) == Err::<
            (Seq<Seq<u8>>, Option<Seq<u8>>),
            DecodeError,
        >(e)),
{
    if p.len() < 4 {
        return Err(DecodeError::Truncated);
    }
    let (n, q) = match read_varint(p, 4) {
        Ok(t) => t,
        Err(e) => {
            return Err(e);
        },
    };
    if n > MAX_KNOWN_BLOCKS as u64 {
        return Err(DecodeError::CountOverMax);
    }
    let (kb, qh) = match parse_hash_entries(p, q, n) {
        Ok(t) => t,
        Err(e) => {
            return Err(e);
        },
    };
    if p.len() - qh < 32 {
        return Err(DecodeError::Truncated);
    }
    if p.len() - qh > 32 {
        return Err(DecodeError::LengthMismatch);
    }
    let (stopb, _) = match read_bytes(p, qh, 32) {
        Ok(t) => t,
        Err(e) => {
            return Err(e);
        },
    };
    if is_zero_hash(&stopb) {
        Ok((kb, None))
    } else {
        Ok((kb, Some(stopb)))
    }
}

/// Parse an inventory-list payload.
fn parse_inv_msg_items(p: &Vec<u8>) -> (r: Result<Vec<InventoryHash>, DecodeError>)
    ensures
        (r matches Ok(v) ==> sp_inv_msg(p@) == Ok::<Seq<InventoryHashV>, DecodeError>(
            invs_view(v@),
        ) && wf_inv_list(invs_view(v@))),
        (r matches Err(e) ==> sp_inv_msg(p@) == Err::<Seq<InventoryHashV>, DecodeError>(e)),
{
    let (n, q) = match read_varint(p, 0) {
        Ok(t) => t,
        Err(e) => {
            return Err(e);
        },
    };
    if n > MAX_INV_IN_MESSAGE as u64 {
        return Err(DecodeError::CountOverMax);
    }
    let (invs, qf) = match parse_inv_entries(p, q, n) {
        Ok(t) => t,
        Err(e) => {
            return Err(e);
        },
    };
    if qf != p.len() {
        return Err(DecodeError::LengthMismatch);
    }
    Ok(invs)
}

/// Parse a `headers` payload.
fn parse_headers_msg(p: &Vec<u8>) -> (r: Result<Message, DecodeError>)
    ensures
        (r matches Ok(m) ==> sp_headers_msg(p@) == Ok::<MessageV, DecodeError>(m@) && wf_message(
            m@,
        )),
        (r matches Err(e) ==> sp_headers_msg(p@) == Err::<MessageV, DecodeError>(e)),
{
    let (n, q) = match read_varint(p, 0) {
        Ok(t) => t,
        Err(e) => {
            return Err(e);
        },
    };
    if n > MAX_HEADERS_IN_MESSAGE as u64 {
        return Err(DecodeError::CountOverMax);
    }
    let (hs, qf) = match parse_header_entries(p, q, n) {
        Ok(t) => t,
        Err(e) => {
            return Err(e);
        },
    };
    if qf != p.len() {
        return Err(DecodeError::LengthMismatch);
    }
    Ok(Message::Headers(hs))
}

/// Parse a `filterload` payload.
fn parse_filterload(p: &Vec<u8>) -> (r: Result<Message, DecodeError>)
    ensures
        (r matches Ok(m) ==> sp_filterload(p@) == Ok::<MessageV, DecodeError>(m@) && wf_message(
            m@,
        )),
        (r matches Err(e) ==> sp_filterload(p@) == Err::<MessageV, DecodeError>(e)),
{
    let (flen, q) = match read_varint(p, 0) {
        Ok(t) => t,
        Err(e) => {
            return Err(e);
        },
    };
    if flen > MAX_FILTER_LEN as u64 {
        return Err(DecodeError::CountOverMax);
    }
    let (filter, fend) = match read_bytes(p, q, flen as usize) {
        Ok(t) => t,
        Err(e) => {
            return Err(e);
        },
    };
    if p.len() - fend < 9 {
        return Err(DecodeError::Truncated);
    }
    if p.len() - fend > 9 {
        return Err(DecodeError::LengthMismatch);
    }
    let (hfc, c1) = match read_u32_le(p, fend) {
        Ok(t) => t,
        Err(e) => {
            return Err(e);
        },
    };
    let (tweak, c2) = match read_u32_le(p, c1) {
        Ok(t) => t,
        Err(e) => {
            return Err(e);
        },
    };
    let (flags, _c3) = match read_u8(p, c2) {
        Ok(t) => t,
        Err(e) => {
            return Err(e);
        },
    };
    if hfc > MAX_FILTER_HASH_FUNCS {
        return Err(DecodeError::CountOverMax);
    }
    Ok(Message::FilterLoad { filter, hash_functions_count: hfc, tweak, flags })
}

/// Parse a `filteradd` payload.
fn parse_filteradd(p: &Vec<u8>) -> (r: Result<Message, DecodeError>)
    ensures
        (r matches Ok(m) ==> sp_filteradd(p@) == Ok::<MessageV, DecodeError>(m@) && wf_message(
            m@,
        )),
        (r matches Err(e) ==> sp_filteradd(p@) == Err::<MessageV, DecodeError>(e)),
{
    let (dlen, q) = match read_varint(p, 0) {
        Ok(t) => t,
        Err(e) => {
            return Err(e);
        },
    };
    if dlen > MAX_FILTER_ADD_LEN as u64 {
        return Err(DecodeError::CountOverMax);
    }
    let (data, qf) = match read_bytes(p, q, dlen as usize) {
        Ok(t) => t,
        Err(e) => {
            return Err(e);
        },
    };
    if qf != p.len() {
        return Err(DecodeError::LengthMismatch);
    }
    Ok(Message::FilterAdd { data })
}

/// Does the 12-byte field equal a command's padded name?
fn cmd_eq(c: &Vec<u8>, id: CmdId) -> (r: bool)
    requires
        c@.len() == 12,
    ensures
        r == (c@ == cmd_bytes(id)),
{
    let pat = cmd_bytes_exec(id);
    proof {
        assert(pat@.len() == 12);
    }
    let r = bytes_match(c, 0, &pat);
    proof {
        assert(c@.subrange(0, 12) =~= c@);
    }
    r
}

/// Which command the frame's command field names, if any.
fn parse_command(b: &Vec<u8>) -> (r: Option<CmdId>)
    requires
        b@.len() >= 16,
    ensures
        r == crate::commands::command_id(b@.subrange(4, 16)),
{
    let (c, _) = match read_bytes(b, 4, 12) {
        Ok(t) => t,
        Err(_) => {
            return None;
        },
    };
    if cmd_eq(&c, CmdId::Version) {
        return Some(CmdId::Version);
    }
    if cmd_eq(&c, CmdId::Verack) {
        return Some(CmdId::Verack);
    }
    if cmd_eq(&c, CmdId::Ping) {
        return Some(CmdId::Ping);
    }
    if cmd_eq(&c, CmdId::Pong) {
        return Some(CmdId::Pong);
    }
    if cmd_eq(&c, CmdId::Reject) {
        return Some(CmdId::Reject);
    }
    if cmd_eq(&c, CmdId::GetAddr) {
        return Some(CmdId::GetAddr);
    }
    if cmd_eq(&c, CmdId::Addr) {
        return Some(CmdId::Addr);
    }
    if cmd_eq(&c, CmdId::AddrV2) {
        return Some(CmdId::AddrV2);
    }
    if cmd_eq(&c, CmdId::GetBlocks) {
        return Some(CmdId::GetBlocks);
    }
    if cmd_eq(&c, CmdId::Inv) {
        return Some(CmdId::Inv);
    }
    if cmd_eq(&c, CmdId::GetHeaders) {
        return Some(CmdId::GetHeaders);
    }
    if cmd_eq(&c, CmdId::Headers) {
        return Some(CmdId::Headers);
    }
    if cmd_eq(&c, CmdId::GetData) {
        return Some(CmdId::GetData);
    }
    if cmd_eq(&c, CmdId::Block) {
        return Some(CmdId::Block);
    }
    if cmd_eq(&c, CmdId::Tx) {
        return Some(CmdId::Tx);
    }
    if cmd_eq(&c, CmdId::NotFound) {
        return Some(CmdId::NotFound);
    }
    if cmd_eq(&c, CmdId::Mempool) {
        return Some(CmdId::Mempool);
    }
    if cmd_eq(&c, CmdId::FilterLoad) {
        return Some(CmdId::FilterLoad);
    }
    if cmd_eq(&c, CmdId::FilterAdd) {
        return Some(CmdId::FilterAdd);
    }
    if cmd_eq(&c, CmdId::FilterClear) {
        return Some(CmdId::FilterClear);
    }
    None
}

/// Parse a payload under its command.
fn parse_payload(id: CmdId, p: &Vec<u8>) -> (r: Result<Message, DecodeError>)
    requires
        p@.len() <= MAX_PAYLOAD_LEN,
    ensures
        (r matches Ok(m) ==> sp_payload_of(id, p@) == Ok::<MessageV, DecodeError>(m@)
            && wf_message(m@)),
        (r matches Err(e) ==> sp_payload_of(id, p@) == Err::<MessageV, DecodeError>(e)),
{
    match id {
        CmdId::Version => parse_version(p),
        CmdId::Verack => {
            if p.len() != 0 {
                return Err(DecodeError::LengthMismatch);
            }
            Ok(Message::Verack)
        },
        CmdId::Ping => {
            if p.len() < 8 {
                return Err(DecodeError::Truncated);
            }
            if p.len() > 8 {
                return Err(DecodeError::LengthMismatch);
            }
            let (nv, _) = match read_u64_le(p, 0) {
                Ok(t) => t,
                Err(e) => {
                    return Err(e);
                },
            };
            proof {
                assert(p@.subrange(0, 8) =~= p@);
            }
            Ok(Message::Ping(nv))
        },
        CmdId::Pong => {
            if p.len() < 8 {
                return Err(DecodeError::Truncated);
            }
            if p.len() > 8 {
                return Err(DecodeError::LengthMismatch);
            }
            let (nv, _) = match read_u64_le(p, 0) {
                Ok(t) => t,
                Err(e) => {
                    return Err(e);
                },
            };
            proof {
                assert(p@.subrange(0, 8) =~= p@);
            }
            Ok(Message::Pong(nv))
        },
        CmdId::Reject => parse_reject(p),
        CmdId::GetAddr => {
            if p.len() != 0 {
                return Err(DecodeError::LengthMismatch);
            }
            Ok(Message::GetAddr)
        },
        CmdId::Addr => parse_addr_msg(p),
        CmdId::AddrV2 => parse_addrv2_msg(p),
        CmdId::GetBlocks => {
            match parse_locator(p) {
                Ok((known_blocks, stop)) => Ok(Message::GetBlocks { known_blocks, stop }),
                Err(e) => Err(e),
            }
        },
        CmdId::Inv => {
            match parse_inv_msg_items(p) {
                Ok(invs) => Ok(Message::Inv(invs)),
                Err(e) => Err(e),
            }
        },
        CmdId::GetHeaders => {
            match parse_locator(p) {
                Ok((known_blocks, stop)) => Ok(Message::GetHeaders { known_blocks, stop }),
                Err(e) => Err(e),
            }
        },
        CmdId::Headers => parse_headers_msg(p),
        CmdId::GetData => {
            match parse_inv_msg_items(p) {
                Ok(invs) => Ok(Message::GetData(invs)),
                Err(e) => Err(e),
            }
        },
        CmdId::Block => {
            let (bytes, _) = match read_bytes(p, 0, p.len()) {
                Ok(t) => t,
                Err(e) => {
                    return Err(e);
                },
            };
            proof {
                assert(bytes@ =~= p@);
            }
            Ok(Message::Block(bytes))
        },
        CmdId::Tx => {
            let (bytes, _) = match read_bytes(p, 0, p.len()) {
                Ok(t) => t,
                Err(e) => {
                    return Err(e);
                },
            };
            proof {
                assert(bytes@ =~= p@);
            }
            Ok(Message::Tx(bytes))
        },
        CmdId::NotFound => {
            match parse_inv_msg_items(p) {
                Ok(invs) => Ok(Message::NotFound(invs)),
                Err(e) => Err(e),
            }
        },
        CmdId::Mempool => {
            if p.len() != 0 {
                return Err(DecodeError::LengthMismatch);
            }
            Ok(Message::Mempool)
        },
        CmdId::FilterLoad => parse_filterload(p),
        CmdId::FilterAdd => parse_filteradd(p),
        CmdId::FilterClear => {
            if p.len() != 0 {
                return Err(DecodeError::LengthMismatch);
            }
            Ok(Message::FilterClear)
        },
    }
}

/// Decode one full frame into a message, or fail with the error that
/// [`sp_message`] assigns to these bytes. A decoded message is always
/// well formed.
pub fn decode(b: &Vec<u8>) -> (r: Result<Message, DecodeError>)
    ensures
        (r matches Ok(m) ==> sp_message(b@) == Ok::<MessageV, DecodeError>(m@) && wf_message(m@)),
        (r matches Err(e) ==> sp_message(b@) == Err::<MessageV, DecodeError>(e)),
{
    if b.len() < 24 {
        return Err(DecodeError::Truncated);
    }
    let mg = magic_exec();
    if !bytes_match(b, 0, &mg) {
        return Err(DecodeError::BadMagic);
    }
    let (plen32, _) = match read_u32_le(b, 16) {
        Ok(t) => t,
        Err(e) => {
            return Err(e);
        },
    };
    let plen = plen32 as usize;
    if plen > MAX_PAYLOAD_LEN {
        return Err(DecodeError::OversizedPayload);
    }
    if b.len() - 24 != plen {
        return Err(DecodeError::LengthMismatch);
    }
    let (payload, _) = match read_bytes(b, 24, plen) {
        Ok(t) => t,
        Err(e) => {
            return Err(e);
        },
    };
    proof {
        assert(payload@ == b@.subrange(24, b@.len() as int));
    }
    let ck = checksum(&payload);
    if !bytes_match(b, 20, &ck) {
        return Err(DecodeError::BadChecksum);
    }
    let id = match parse_command(b) {
        Some(id) => id,
        None => {
            return Err(DecodeError::UnknownCommand);
        },
    };
    parse_payload(id, &payload)
}


/// How long the frame that starts at these bytes is, read from its header:
/// the framing overhead plus the declared payload length. A connection
/// layer can use this to split a byte stream into frames before decoding.
pub fn frame_length(b: &Vec<u8>) -> (r: Result<usize, DecodeError>)
    ensures
        (r matches Ok(l) ==> b@.len() >= 24 && b@.subrange(0, 4) == magic()
            && l == 24 + spec_u32_from_le_bytes(b@.subrange(16, 20))
            && spec_u32_from_le_bytes(b@.subrange(16, 20)) <= MAX_PAYLOAD_LEN),
        (r matches Err(e) ==> ((e == DecodeError::Truncated && b@.len() < 24) || (e
            == DecodeError::BadMagic && b@.len() >= 24 && b@.subrange(0, 4) != magic()) || (e
            == DecodeError::OversizedPayload && b@.len() >= 24 && b@.subrange(0, 4) == magic()
            && spec_u32_from_le_bytes(b@.subrange(16, 20)) > MAX_PAYLOAD_LEN))),
{
    if b.len() < 24 {
        return Err(DecodeError::Truncated);
    }
    let mg = magic_exec();
    if !bytes_match(b, 0, &mg) {
        return Err(DecodeError::BadMagic);
    }
    let (plen32, _) = match read_u32_le(b, 16) {
        Ok(t) => t,
        Err(e) => {
            return Err(e);
        },
    };
    let plen = plen32 as usize;
    if plen > MAX_PAYLOAD_LEN {
        return Err(DecodeError::OversizedPayload);
    }
    Ok(24 + plen)
}

} // verus!
