//! The encoding half of the wire codec: the spec-level byte layout of every
//! message, the frame around a payload, and the verified encoder.
//!
//! [`spec_encode`] is the single definition of what bytes a message becomes;
//! [`encode`] is proved to produce exactly those bytes for every well-formed
//! message, and to fail exactly on messages that break their variant's
//! invariant.

use vstd::prelude::*;
use vstd::bytes::*;
use vstd::utf8::encode_utf8;
use vstd::string::StrSliceExecFns;

use crate::commands::{cmd_bytes, cmd_bytes_exec, CmdId};
use crate::message::{
    addrs_view, hashes_view, headers_view, invs_view, spec_inv_kind_code, spec_reject_code,
    wf_block_locator, wf_counted_header, wf_inv_list, wf_inventory, wf_message, wf_meta_addr,
    zero_hash, AddrInVersion, AddrInVersionV, CountedHeader, CountedHeaderV, InventoryHash,
    InventoryHashV, Message, MessageV, MetaAddr, MetaAddrV, BLOCK_HEADER_LEN,
    MAX_ADDRS_IN_MESSAGE, MAX_FILTER_ADD_LEN, MAX_FILTER_HASH_FUNCS, MAX_FILTER_LEN,
    MAX_HEADERS_IN_MESSAGE, MAX_INV_IN_MESSAGE, MAX_KNOWN_BLOCKS, MAX_PAYLOAD_LEN,
    MAX_REJECT_MESSAGE_LEN, MAX_REJECT_REASON_LEN, MAX_TIMESTAMP, MAX_USER_AGENT_LEN,
    MIN_TIMESTAMP,
};
use crate::wire::{
    push_bytes, push_u16_be, push_u32_le, push_u64_le, push_varint, spec_u16_be, spec_varint,
    EncodeError,
};

verus! {

/// The protocol version this node writes into `getblocks` and `getheaders`
/// requests. Peers ignore the field's value, and so does decoding.
pub const PROTOCOL_VERSION: u32 = 170100;

/// The network magic at the start of every frame.
pub open spec fn magic() -> Seq<u8> {
    seq![0x24u8, 0xe9, 0x27, 0x64]
}

/// The network magic, as a byte vector.
pub fn magic_exec() -> (r: Vec<u8>)
    ensures
        r@ == magic(),
{
    let r: Vec<u8> = vec![0x24u8, 0xe9, 0x27, 0x64];
    proof {
        assert(r@ =~= magic());
    }
    r
}

/// The SHA-256 digest of a byte sequence. The digest is a pure function of
/// the bytes, but nothing in this crate states which value it is: only the
/// outside hash implementation computes it.
pub uninterp spec fn sha256_of(b: Seq<u8>) -> Seq<u8>;

/// Relies on sha2::Sha256::digest: the 32-byte digest is a function of the
/// input bytes alone.
#[verifier::external_body]
fn sha256(data: &Vec<u8>) -> (r: Vec<u8>)
    ensures
        r@ == sha256_of(data@),
        r@.len() == 32,
{
    <sha2::Sha256 as sha2::Digest>::digest(data.as_slice()).to_vec()
}

/// Relies on chrono::DateTime::from_timestamp: it accepts exactly the
/// seconds values between [`MIN_TIMESTAMP`] and [`MAX_TIMESTAMP`], the
/// supported calendar range.
#[verifier::external_body]
fn timestamp_in_range(secs: i64) -> (r: bool)
    ensures
        r == (MIN_TIMESTAMP <= secs <= MAX_TIMESTAMP),
{
    chrono::DateTime::from_timestamp(secs, 0).is_some()
}

/// Check a version timestamp against the supported calendar range.
pub fn valid_timestamp(secs: i64) -> (r: bool)
    ensures
        r == (MIN_TIMESTAMP <= secs <= MAX_TIMESTAMP),
{
    timestamp_in_range(secs)
}

/// A byte of a sequence, or zero past its end.
pub open spec fn byte_at(d: Seq<u8>, i: int) -> u8 {
    if 0 <= i < d.len() {
        d[i]
    } else {
        0
    }
}

/// The frame checksum of a payload: the first four bytes of the double
/// SHA-256 digest.
pub open spec fn checksum_spec(p: Seq<u8>) -> Seq<u8> {
    let d = sha256_of(sha256_of(p));
    seq![byte_at(d, 0), byte_at(d, 1), byte_at(d, 2), byte_at(d, 3)]
}

/// Compute the frame checksum of a payload.
pub fn checksum(payload: &Vec<u8>) -> (r: Vec<u8>)
    ensures
        r@ == checksum_spec(payload@),
        r@.len() == 4,
{
    let d1 = sha256(payload);
    let d2 = sha256(&d1);
    let mut out: Vec<u8> = Vec::new();
    out.push(d2[0]);
    out.push(d2[1]);
    out.push(d2[2]);
    out.push(d2[3]);
    proof {
        assert(out@ =~= checksum_spec(payload@));
    }
    out
}

/// Concatenated wire bytes of a list of 32-byte hashes.
pub open spec fn spec_hash_list(s: Seq<Seq<u8>>) -> Seq<u8>
    decreases s.len(),
{
    if s.len() == 0 {
        Seq::<u8>::empty()
    } else {
        s[0] + spec_hash_list(s.drop_first())
    }
}

/// Extending the encoded prefix by one element appends that element's bytes.
pub proof fn spec_hash_list_snoc(s: Seq<Seq<u8>>, i: int)
    requires
        0 <= i < s.len(),
    ensures
        spec_hash_list(s.take(i + 1)) == spec_hash_list(s.take(i)) + s[i],
    decreases i,
{
    if i == 0 {
        assert(s.take(0) =~= Seq::<Seq<u8>>::empty());
        assert(spec_hash_list(s.take(0)) == Seq::<u8>::empty());
        assert(s.take(1) =~= seq![s[0]]);
        assert(s.take(1).drop_first() =~= s.take(0));
        assert(s.take(1)[0] == s[0]);
        assert(spec_hash_list(s.take(1)) == s[0] + spec_hash_list(s.take(0)));
        assert(s[0] + Seq::<u8>::empty() =~= Seq::<u8>::empty() + s[0]);
    } else {
        let t = s.drop_first();
        spec_hash_list_snoc(t, i - 1);
        assert(s.take(i + 1).len() != 0);
        assert(s.take(i + 1)[0] == s[0]);
        assert(s.take(i + 1).drop_first() =~= t.take(i));
        assert(s.take(i).drop_first() =~= t.take(i - 1));
        assert(s.take(i).len() != 0);
        assert(s.take(i)[0] == s[0]);
        assert(t[i - 1] == s[i]);
        assert(spec_hash_list(s.take(i + 1)) == s[0] + spec_hash_list(t.take(i)));
        assert(spec_hash_list(t.take(i)) == spec_hash_list(t.take(i - 1)) + t[i - 1]);
        assert(s[0] + (spec_hash_list(t.take(i - 1)) + s[i]) =~= (s[0] + spec_hash_list(
            t.take(i - 1),
        )) + s[i]);
        assert(spec_hash_list(s.take(i)) == s[0] + spec_hash_list(t.take(i - 1)));
    }
}

/// When every element's bytes are at most `w` long, the list's bytes are at
/// most `len * w` long.
pub proof fn spec_hash_list_len(s: Seq<Seq<u8>>, w: nat)
    requires
        forall|i: int| 0 <= i < s.len() ==> (#[trigger] s[i]).len() <= w,
    ensures
        spec_hash_list(s).len() <= s.len() * w,
    decreases s.len(),
{
    if s.len() == 0 {
    } else {
        let t = s.drop_first();
        assert forall|i: int| 0 <= i < t.len() implies (#[trigger] t[i]).len() <= w by {
            assert(t[i] == s[i + 1]);
        }
        spec_hash_list_len(t, w);
        assert(s[0].len() <= w);
        assert(s.len() * w == (t.len() * w) + w) by (nonlinear_arith)
            requires
                s.len() == t.len() + 1,
        ;
    }
}

/// Concatenated wire bytes of an address list.
pub open spec fn spec_addr_items(s: Seq<MetaAddrV>) -> Seq<u8>
    decreases s.len(),
{
    if s.len() == 0 {
        Seq::<u8>::empty()
    } else {
        spec_addr_entry(s[0]) + spec_addr_items(s.drop_first())
    }
}

/// Extending the encoded prefix by one element appends that element's bytes.
pub proof fn spec_addr_items_snoc(s: Seq<MetaAddrV>, i: int)
    requires
        0 <= i < s.len(),
    ensures
        spec_addr_items(s.take(i + 1)) == spec_addr_items(s.take(i)) + spec_addr_entry(s[i]),
    decreases i,
{
    if i == 0 {
        assert(s.take(0) =~= Seq::<MetaAddrV>::empty());
        assert(spec_addr_items(s.take(0)) == Seq::<u8>::empty());
        assert(s.take(1) =~= seq![s[0]]);
        assert(s.take(1).drop_first() =~= s.take(0));
        assert(s.take(1)[0] == s[0]);
        assert(spec_addr_items(s.take(1)) == spec_addr_entry(s[0]) + spec_addr_items(s.take(0)));
        assert(spec_addr_entry(s[0]) + Seq::<u8>::empty() =~= Seq::<u8>::empty() + spec_addr_entry(s[0]));
    } else {
        let t = s.drop_first();
        spec_addr_items_snoc(t, i - 1);
        assert(s.take(i + 1).len() != 0);
        assert(s.take(i + 1)[0] == s[0]);
        assert(s.take(i + 1).drop_first() =~= t.take(i));
        assert(s.take(i).drop_first() =~= t.take(i - 1));
        assert(s.take(i).len() != 0);
        assert(s.take(i)[0] == s[0]);
        assert(t[i - 1] == s[i]);
        assert(spec_addr_items(s.take(i + 1)) == spec_addr_entry(s[0]) + spec_addr_items(t.take(i)));
        assert(spec_addr_items(t.take(i)) == spec_addr_items(t.take(i - 1)) + spec_addr_entry(t[i - 1]));
        assert(spec_addr_entry(s[0]) + (spec_addr_items(t.take(i - 1)) + spec_addr_entry(s[i])) =~= (spec_addr_entry(s[0]) + spec_addr_items(
            t.take(i - 1),
        )) + spec_addr_entry(s[i]));
        assert(spec_addr_items(s.take(i)) == spec_addr_entry(s[0]) + spec_addr_items(t.take(i - 1)));
    }
}

/// When every element's bytes are at most `w` long, the list's bytes are at
/// most `len * w` long.
pub proof fn spec_addr_items_len(s: Seq<MetaAddrV>, w: nat)
    requires
        forall|i: int| 0 <= i < s.len() ==> (#[trigger] spec_addr_entry(s[i])).len() <= w,
    ensures
        spec_addr_items(s).len() <= s.len() * w,
    decreases s.len(),
{
    if s.len() == 0 {
    } else {
        let t = s.drop_first();
        assert forall|i: int| 0 <= i < t.len() implies (#[trigger] spec_addr_entry(t[i])).len() <= w by {
            assert(t[i] == s[i + 1]);
        }
        spec_addr_items_len(t, w);
        assert(spec_addr_entry(s[0]).len() <= w);
        assert(s.len() * w == (t.len() * w) + w) by (nonlinear_arith)
            requires
                s.len() == t.len() + 1,
        ;
    }
}

/// Concatenated wire bytes of an inventory list.
pub open spec fn spec_inv_items(s: Seq<InventoryHashV>) -> Seq<u8>
    decreases s.len(),
{
    if s.len() == 0 {
        Seq::<u8>::empty()
    } else {
        spec_inv_entry(s[0]) + spec_inv_items(s.drop_first())
    }
}

/// Extending the encoded prefix by one element appends that element's bytes.
pub proof fn spec_inv_items_snoc(s: Seq<InventoryHashV>, i: int)
    requires
        0 <= i < s.len(),
    ensures
        spec_inv_items(s.take(i + 1)) == spec_inv_items(s.take(i)) + spec_inv_entry(s[i]),
    decreases i,
{
    if i == 0 {
        assert(s.take(0) =~= Seq::<InventoryHashV>::empty());
        assert(spec_inv_items(s.take(0)) == Seq::<u8>::empty());
        assert(s.take(1) =~= seq![s[0]]);
        assert(s.take(1).drop_first() =~= s.take(0));
        assert(s.take(1)[0] == s[0]);
        assert(spec_inv_items(s.take(1)) == spec_inv_entry(s[0]) + spec_inv_items(s.take(0)));
        assert(spec_inv_entry(s[0]) + Seq::<u8>::empty() =~= Seq::<u8>::empty() + spec_inv_entry(s[0]));
    } else {
        let t = s.drop_first();
        spec_inv_items_snoc(t, i - 1);
        assert(s.take(i + 1).len() != 0);
        assert(s.take(i + 1)[0] == s[0]);
        assert(s.take(i + 1).drop_first() =~= t.take(i));
        assert(s.take(i).drop_first() =~= t.take(i - 1));
        assert(s.take(i).len() != 0);
        assert(s.take(i)[0] == s[0]);
        assert(t[i - 1] == s[i]);
        assert(spec_inv_items(s.take(i + 1)) == spec_inv_entry(s[0]) + spec_inv_items(t.take(i)));
        assert(spec_inv_items(t.take(i)) == spec_inv_items(t.take(i - 1)) + spec_inv_entry(t[i - 1]));
        assert(spec_inv_entry(s[0]) + (spec_inv_items(t.take(i - 1)) + spec_inv_entry(s[i])) =~= (spec_inv_entry(s[0]) + spec_inv_items(
            t.take(i - 1),
        )) + spec_inv_entry(s[i]));
        assert(spec_inv_items(s.take(i)) == spec_inv_entry(s[0]) + spec_inv_items(t.take(i - 1)));
    }
}

/// When every element's bytes are at most `w` long, the list's bytes are at
/// most `len * w` long.
pub proof fn spec_inv_items_len(s: Seq<InventoryHashV>, w: nat)
    requires
        forall|i: int| 0 <= i < s.len() ==> (#[trigger] spec_inv_entry(s[i])).len() <= w,
    ensures
        spec_inv_items(s).len() <= s.len() * w,
    decreases s.len(),
{
    if s.len() == 0 {
    } else {
        let t = s.drop_first();
        assert forall|i: int| 0 <= i < t.len() implies (#[trigger] spec_inv_entry(t[i])).len() <= w by {
            assert(t[i] == s[i + 1]);
        }
        spec_inv_items_len(t, w);
        assert(spec_inv_entry(s[0]).len() <= w);
        assert(s.len() * w == (t.len() * w) + w) by (nonlinear_arith)
            requires
                s.len() == t.len() + 1,
        ;
    }
}

/// Concatenated wire bytes of a header list.
pub open spec fn spec_header_items(s: Seq<CountedHeaderV>) -> Seq<u8>
    decreases s.len(),
{
    if s.len() == 0 {
        Seq::<u8>::empty()
    } else {
        spec_header_entry(s[0]) + spec_header_items(s.drop_first())
    }
}

/// Extending the encoded prefix by one element appends that element's bytes.
pub proof fn spec_header_items_snoc(s: Seq<CountedHeaderV>, i: int)
    requires
        0 <= i < s.len(),
    ensures
        spec_header_items(s.take(i + 1)) == spec_header_items(s.take(i)) + spec_header_entry(s[i]),
    decreases i,
{
    if i == 0 {
        assert(s.take(0) =~= Seq::<CountedHeaderV>::empty());
        assert(spec_header_items(s.take(0)) == Seq::<u8>::empty());
        assert(s.take(1) =~= seq![s[0]]);
        assert(s.take(1).drop_first() =~= s.take(0));
        assert(s.take(1)[0] == s[0]);
        assert(spec_header_items(s.take(1)) == spec_header_entry(s[0]) + spec_header_items(s.take(0)));
        assert(spec_header_entry(s[0]) + Seq::<u8>::empty() =~= Seq::<u8>::empty() + spec_header_entry(s[0]));
    } else {
        let t = s.drop_first();
        spec_header_items_snoc(t, i - 1);
        assert(s.take(i + 1).len() != 0);
        assert(s.take(i + 1)[0] == s[0]);
        assert(s.take(i + 1).drop_first() =~= t.take(i));
        assert(s.take(i).drop_first() =~= t.take(i - 1));
        assert(s.take(i).len() != 0);
        assert(s.take(i)[0] == s[0]);
        assert(t[i - 1] == s[i]);
        assert(spec_header_items(s.take(i + 1)) == spec_header_entry(s[0]) + spec_header_items(t.take(i)));
        assert(spec_header_items(t.take(i)) == spec_header_items(t.take(i - 1)) + spec_header_entry(t[i - 1]));
        assert(spec_header_entry(s[0]) + (spec_header_items(t.take(i - 1)) + spec_header_entry(s[i])) =~= (spec_header_entry(s[0]) + spec_header_items(
            t.take(i - 1),
        )) + spec_header_entry(s[i]));
        assert(spec_header_items(s.take(i)) == spec_header_entry(s[0]) + spec_header_items(t.take(i - 1)));
    }
}

/// When every element's bytes are at most `w` long, the list's bytes are at
/// most `len * w` long.
pub proof fn spec_header_items_len(s: Seq<CountedHeaderV>, w: nat)
    requires
        forall|i: int| 0 <= i < s.len() ==> (#[trigger] spec_header_entry(s[i])).len() <= w,
    ensures
        spec_header_items(s).len() <= s.len() * w,
    decreases s.len(),
{
    if s.len() == 0 {
    } else {
        let t = s.drop_first();
        assert forall|i: int| 0 <= i < t.len() implies (#[trigger] spec_header_entry(t[i])).len() <= w by {
            assert(t[i] == s[i + 1]);
        }
        spec_header_items_len(t, w);
        assert(spec_header_entry(s[0]).len() <= w);
        assert(s.len() * w == (t.len() * w) + w) by (nonlinear_arith)
            requires
                s.len() == t.len() + 1,
        ;
    }
}

/// Wire bytes of one `addr` list entry.
pub open spec fn spec_addr_entry(a: MetaAddrV) -> Seq<u8> {
    spec_u32_to_le_bytes(a.untrusted_last_seen) + spec_u64_to_le_bytes(a.untrusted_services)
        + a.ip + spec_u16_be(a.port)
}

/// Wire bytes of one address inside a `version` message.
pub open spec fn spec_addr_in_version(a: AddrInVersionV) -> Seq<u8> {
    spec_u64_to_le_bytes(a.untrusted_services) + a.ip + spec_u16_be(a.port)
}

/// Wire bytes of one inventory entry.
pub open spec fn spec_inv_entry(i: InventoryHashV) -> Seq<u8> {
    spec_u32_to_le_bytes(spec_inv_kind_code(i.kind)) + i.hash
}

/// Wire bytes of one `headers` list entry.
pub open spec fn spec_header_entry(h: CountedHeaderV) -> Seq<u8> {
    h.header + spec_varint(h.transaction_count)
}

/// Wire bytes of a length-prefixed text field: the byte length as a varint,
/// then the UTF-8 bytes.
pub open spec fn spec_varstr(s: Seq<char>) -> Seq<u8> {
    spec_varint(encode_utf8(s).len() as u64) + encode_utf8(s)
}

/// Wire bytes of a known-blocks locator with its optional stop hash; an
/// absent stop hash is written as the all-zero hash.
pub open spec fn spec_block_locator(known_blocks: Seq<Seq<u8>>, stop: Option<Seq<u8>>) -> Seq<
    u8,
> {
    spec_u32_to_le_bytes(PROTOCOL_VERSION) + spec_varint(known_blocks.len() as u64)
        + spec_hash_list(known_blocks) + (match stop {
        Some(h) => h,
        None => zero_hash(),
    })
}

/// Wire bytes of an inventory list.
pub open spec fn spec_inv_list(invs: Seq<InventoryHashV>) -> Seq<u8> {
    spec_varint(invs.len() as u64) + spec_inv_items(invs)
}

/// The payload bytes of a message: everything inside the frame.
pub open spec fn spec_payload(m: MessageV) -> Seq<u8> {
    match m {
        MessageV::Version {
            version,
            services,
            timestamp,
            address_recv,
            address_from,
            nonce,
            user_agent,
            start_height,
            relay,
        } => spec_u32_to_le_bytes(version) + spec_u64_to_le_bytes(services) + spec_u64_to_le_bytes(
            timestamp as u64,
        ) + spec_addr_in_version(address_recv) + spec_addr_in_version(address_from)
            + spec_u64_to_le_bytes(nonce) + spec_varstr(user_agent) + spec_u32_to_le_bytes(
            start_height,
        ) + seq![if relay { 1u8 } else { 0u8 }],
        MessageV::Verack => Seq::<u8>::empty(),
        MessageV::Ping(n) => spec_u64_to_le_bytes(n),
        MessageV::Pong(n) => spec_u64_to_le_bytes(n),
        MessageV::Reject { message, ccode, reason, data } => spec_varstr(message) + seq![
            spec_reject_code(ccode),
        ] + spec_varstr(reason) + (match data {
            Some(d) => d,
            None => Seq::<u8>::empty(),
        }),
        MessageV::GetAddr => Seq::<u8>::empty(),
        MessageV::Addr(addrs) => spec_varint(addrs.len() as u64) + spec_addr_items(addrs),
        MessageV::GetBlocks { known_blocks, stop } => spec_block_locator(known_blocks, stop),
        MessageV::Inv(invs) => spec_inv_list(invs),
        MessageV::GetHeaders { known_blocks, stop } => spec_block_locator(known_blocks, stop),
        MessageV::Headers(hs) => spec_varint(hs.len() as u64) + spec_header_items(hs),
        MessageV::GetData(invs) => spec_inv_list(invs),
        MessageV::Block(b) => b,
        MessageV::Tx(t) => t,
        MessageV::NotFound(invs) => spec_inv_list(invs),
        MessageV::Mempool => Seq::<u8>::empty(),
        MessageV::FilterLoad { filter, hash_functions_count, tweak, flags } => spec_varint(
            filter.len() as u64,
        ) + filter + spec_u32_to_le_bytes(hash_functions_count) + spec_u32_to_le_bytes(tweak)
            + seq![flags],
        MessageV::FilterAdd { data } => spec_varint(data.len() as u64) + data,
        MessageV::FilterClear => Seq::<u8>::empty(),
    }
}

/// The wire command a message is sent under.
pub open spec fn spec_command_of(m: MessageV) -> CmdId {
    match m {
        MessageV::Version { .. } => CmdId::Version,
        MessageV::Verack => CmdId::Verack,
        MessageV::Ping(_) => CmdId::Ping,
        MessageV::Pong(_) => CmdId::Pong,
        MessageV::Reject { .. } => CmdId::Reject,
        MessageV::GetAddr => CmdId::GetAddr,
        MessageV::Addr(_) => CmdId::Addr,
        MessageV::GetBlocks { .. } => CmdId::GetBlocks,
        MessageV::Inv(_) => CmdId::Inv,
        MessageV::GetHeaders { .. } => CmdId::GetHeaders,
        MessageV::Headers(_) => CmdId::Headers,
        MessageV::GetData(_) => CmdId::GetData,
        MessageV::Block(_) => CmdId::Block,
        MessageV::Tx(_) => CmdId::Tx,
        MessageV::NotFound(_) => CmdId::NotFound,
        MessageV::Mempool => CmdId::Mempool,
        MessageV::FilterLoad { .. } => CmdId::FilterLoad,
        MessageV::FilterAdd { .. } => CmdId::FilterAdd,
        MessageV::FilterClear => CmdId::FilterClear,
    }
}

/// A whole frame: magic, padded command, payload length, checksum, payload.
pub open spec fn spec_frame(cmd: Seq<u8>, p: Seq<u8>) -> Seq<u8> {
    magic() + cmd + spec_u32_to_le_bytes(p.len() as u32) + checksum_spec(p) + p
}

/// The full wire bytes of a message.
pub open spec fn spec_encode(m: MessageV) -> Seq<u8> {
    spec_frame(cmd_bytes(spec_command_of(m)), spec_payload(m))
}

/// The wire command a message is sent under.
pub fn command_of(m: &Message) -> (r: CmdId)
    ensures
        r == spec_command_of(m@),
{
    match m {
        Message::Version { .. } => CmdId::Version,
        Message::Verack => CmdId::Verack,
        Message::Ping(_) => CmdId::Ping,
        Message::Pong(_) => CmdId::Pong,
        Message::Reject { .. } => CmdId::Reject,
        Message::GetAddr => CmdId::GetAddr,
        Message::Addr(_) => CmdId::Addr,
        Message::GetBlocks { .. } => CmdId::GetBlocks,
        Message::Inv(_) => CmdId::Inv,
        Message::GetHeaders { .. } => CmdId::GetHeaders,
        Message::Headers(_) => CmdId::Headers,
        Message::GetData(_) => CmdId::GetData,
        Message::Block(_) => CmdId::Block,
        Message::Tx(_) => CmdId::Tx,
        Message::NotFound(_) => CmdId::NotFound,
        Message::Mempool => CmdId::Mempool,
        Message::FilterLoad { .. } => CmdId::FilterLoad,
        Message::FilterAdd { .. } => CmdId::FilterAdd,
        Message::FilterClear => CmdId::FilterClear,
    }
}

/// The length of a varint encoding: one, three, five or nine bytes.
pub proof fn lemma_varint_len(n: u64)
    ensures
        n < 0xFD ==> spec_varint(n).len() == 1,
        0xFD <= n <= 0xFFFF ==> spec_varint(n).len() == 3,
        0xFFFF < n <= 0xFFFF_FFFF ==> spec_varint(n).len() == 5,
        n > 0xFFFF_FFFF ==> spec_varint(n).len() == 9,
        spec_varint(n).len() <= 9,
{
    lemma_auto_spec_u16_to_from_le_bytes();
    lemma_auto_spec_u32_to_from_le_bytes();
    lemma_auto_spec_u64_to_from_le_bytes();
}

/// Every well-formed message fits in a frame: its payload stays within the
/// protocol's payload limit.
pub proof fn lemma_payload_len(m: MessageV)
    requires
        wf_message(m),
    ensures
        spec_payload(m).len() <= MAX_PAYLOAD_LEN,
{
    lemma_auto_spec_u16_to_from_le_bytes();
    lemma_auto_spec_u32_to_from_le_bytes();
    lemma_auto_spec_u64_to_from_le_bytes();
    match m {
        MessageV::Version { user_agent, .. } => {
            lemma_varint_len(encode_utf8(user_agent).len() as u64);
        },
        MessageV::Reject { message, reason, .. } => {
            lemma_varint_len(encode_utf8(message).len() as u64);
            lemma_varint_len(encode_utf8(reason).len() as u64);
        },
        MessageV::Addr(addrs) => {
            lemma_varint_len(addrs.len() as u64);
            assert forall|i: int| 0 <= i < addrs.len() implies (#[trigger] spec_addr_entry(
                addrs[i],
            )).len() <= 30 by {
                assert(wf_meta_addr(addrs[i]));
            }
            spec_addr_items_len(addrs, 30);
        },
        MessageV::GetBlocks { known_blocks, stop } => {
            lemma_varint_len(known_blocks.len() as u64);
            spec_hash_list_len(known_blocks, 32);
        },
        MessageV::GetHeaders { known_blocks, stop } => {
            lemma_varint_len(known_blocks.len() as u64);
            spec_hash_list_len(known_blocks, 32);
        },
        MessageV::Inv(invs) => {
            lemma_inv_payload_len(invs);
        },
        MessageV::GetData(invs) => {
            lemma_inv_payload_len(invs);
        },
        MessageV::NotFound(invs) => {
            lemma_inv_payload_len(invs);
        },
        MessageV::Headers(hs) => {
            lemma_varint_len(hs.len() as u64);
            assert forall|i: int| 0 <= i < hs.len() implies (#[trigger] spec_header_entry(
                hs[i],
            )).len() <= 89 by {
                assert(wf_counted_header(hs[i]));
                lemma_varint_len(hs[i].transaction_count);
            }
            spec_header_items_len(hs, 89);
        },
        MessageV::FilterLoad { filter, .. } => {
            lemma_varint_len(filter.len() as u64);
        },
        MessageV::FilterAdd { data } => {
            lemma_varint_len(data.len() as u64);
        },
        _ => {},
    }
}

/// The payload of a well-formed inventory message stays within the limit.
proof fn lemma_inv_payload_len(invs: Seq<InventoryHashV>)
    requires
        wf_inv_list(invs),
    ensures
        spec_inv_list(invs).len() <= MAX_PAYLOAD_LEN,
{
    lemma_auto_spec_u32_to_from_le_bytes();
    lemma_varint_len(invs.len() as u64);
    assert forall|i: int| 0 <= i < invs.len() implies (#[trigger] spec_inv_entry(
        invs[i],
    )).len() <= 36 by {
        assert(wf_inventory(invs[i]));
    }
    spec_inv_items_len(invs, 36);
}

/// Is a 32-byte hash the all-zero hash?
pub fn is_zero_hash(h: &Vec<u8>) -> (r: bool)
    requires
        h@.len() == 32,
    ensures
        r == (h@ == zero_hash()),
{
    let mut i: usize = 0;
    while i < 32
        invariant
            h@.len() == 32,
            i <= 32,
            forall|j: int| 0 <= j < i ==> h@[j] == 0,
        decreases 32 - i,
    {
        if h[i] != 0 {
            proof {
                assert(zero_hash()[i as int] == 0);
            }
            return false;
        }
        i = i + 1;
    }
    proof {
        assert(h@ =~= zero_hash());
    }
    true
}

/// Append one address entry of a `version` message.
fn push_addr_in_version(out: &mut Vec<u8>, a: &AddrInVersion)
    ensures
        final(out)@ == old(out)@ + spec_addr_in_version(a@),
{
    push_u64_le(out, a.untrusted_services);
    push_bytes(out, &a.ip);
    push_u16_be(out, a.port);
    assert(out@ =~= old(out)@ + spec_addr_in_version(a@));
}

/// Append a length-prefixed text field.
fn push_varstr(out: &mut Vec<u8>, s: &String)
    ensures
        final(out)@ == old(out)@ + spec_varstr(s@),
{
    let b = s.as_str().as_bytes_vec();
    push_varint(out, b.len() as u64);
    push_bytes(out, &b);
    assert(out@ =~= old(out)@ + spec_varstr(s@));
}

/// Encode an inventory list payload, count prefix included.
fn encode_inv_items(invs: &Vec<InventoryHash>) -> (r: Result<Vec<u8>, EncodeError>)
    ensures
        r matches Ok(p) ==> wf_inv_list(invs_view(invs@)) && p@ == spec_inv_list(invs_view(invs@)),
        r is Err ==> !wf_inv_list(invs_view(invs@)),
{
    let ghost iv = invs_view(invs@);
    assert(iv.len() == invs@.len());
    if invs.len() > MAX_INV_IN_MESSAGE {
        return Err(EncodeError::InvalidMessage);
    }
    let mut out: Vec<u8> = Vec::new();
    push_varint(&mut out, invs.len() as u64);
    let ghost prefix = out@;
    let mut i: usize = 0;
    while i < invs.len()
        invariant
            i <= invs@.len(),
            iv == invs_view(invs@),
            iv.len() == invs@.len(),
            invs@.len() <= MAX_INV_IN_MESSAGE,
            prefix == spec_varint(invs@.len() as u64),
            out@ == prefix + spec_inv_items(iv.take(i as int)),
            forall|j: int| 0 <= j < i ==> wf_inventory(#[trigger] iv[j]),
        decreases invs@.len() - i,
    {
        let inv = &invs[i];
        proof {
            assert(iv[i as int] == invs@[i as int]@);
        }
        if inv.hash.len() != 32 {
            proof {
                assert(!wf_inventory(iv[i as int]));
            }
            return Err(EncodeError::InvalidMessage);
        }
        push_u32_le(&mut out, inv.kind.code());
        push_bytes(&mut out, &inv.hash);
        proof {
            spec_inv_items_snoc(iv, i as int);
            assert(out@ =~= prefix + spec_inv_items(iv.take(i as int + 1)));
        }
        i = i + 1;
    }
    proof {
        assert(iv.take(iv.len() as int) =~= iv);
        assert(out@ =~= spec_inv_list(iv));
    }
    Ok(out)
}

/// Encode an address list payload, count prefix included.
fn encode_addr_items(addrs: &Vec<MetaAddr>) -> (r: Result<Vec<u8>, EncodeError>)
    ensures
        r matches Ok(p) ==> (addrs_view(addrs@).len() <= MAX_ADDRS_IN_MESSAGE && (forall|i: int|
            0 <= i < addrs_view(addrs@).len() ==> wf_meta_addr(#[trigger] addrs_view(addrs@)[i]))
            && p@ == spec_varint(addrs@.len() as u64) + spec_addr_items(addrs_view(addrs@))),
        r is Err ==> !(addrs_view(addrs@).len() <= MAX_ADDRS_IN_MESSAGE && (forall|i: int|
            0 <= i < addrs_view(addrs@).len() ==> wf_meta_addr(#[trigger] addrs_view(addrs@)[i]))),
{
    let ghost av = addrs_view(addrs@);
    assert(av.len() == addrs@.len());
    if addrs.len() > MAX_ADDRS_IN_MESSAGE {
        return Err(EncodeError::InvalidMessage);
    }
    let mut out: Vec<u8> = Vec::new();
    push_varint(&mut out, addrs.len() as u64);
    let ghost prefix = out@;
    let mut i: usize = 0;
    while i < addrs.len()
        invariant
            i <= addrs@.len(),
            av == addrs_view(addrs@),
            av.len() == addrs@.len(),
            addrs@.len() <= MAX_ADDRS_IN_MESSAGE,
            prefix == spec_varint(addrs@.len() as u64),
            out@ == prefix + spec_addr_items(av.take(i as int)),
            forall|j: int| 0 <= j < i ==> wf_meta_addr(#[trigger] av[j]),
        decreases addrs@.len() - i,
    {
        let a = &addrs[i];
        proof {
            assert(av[i as int] == addrs@[i as int]@);
        }
        if a.ip.len() != 16 {
            proof {
                assert(!wf_meta_addr(av[i as int]));
            }
            return Err(EncodeError::InvalidMessage);
        }
        push_u32_le(&mut out, a.untrusted_last_seen);
        push_u64_le(&mut out, a.untrusted_services);
        push_bytes(&mut out, &a.ip);
        push_u16_be(&mut out, a.port);
        proof {
            spec_addr_items_snoc(av, i as int);
            assert(out@ =~= prefix + spec_addr_items(av.take(i as int + 1)));
        }
        i = i + 1;
    }
    proof {
        assert(av.take(av.len() as int) =~= av);
    }
    Ok(out)
}

/// Encode a known-blocks locator payload with its optional stop hash.
fn encode_block_locator(known_blocks: &Vec<Vec<u8>>, stop: &Option<Vec<u8>>) -> (r: Result<
    Vec<u8>,
    EncodeError,
>)
    ensures
        r matches Ok(p) ==> (wf_block_locator(
            hashes_view(known_blocks@),
            match stop {
                Some(h) => Some(h@),
                None => None,
            },
        ) && p@ == spec_block_locator(
            hashes_view(known_blocks@),
            match stop {
                Some(h) => Some(h@),
                None => None,
            },
        )),
        r is Err ==> !wf_block_locator(
            hashes_view(known_blocks@),
            match stop {
                Some(h) => Some(h@),
                None => None,
            },
        ),
{
    let ghost kv = hashes_view(known_blocks@);
    assert(kv.len() == known_blocks@.len());
    if known_blocks.len() > MAX_KNOWN_BLOCKS {
        return Err(EncodeError::InvalidMessage);
    }
    let mut out: Vec<u8> = Vec::new();
    push_u32_le(&mut out, PROTOCOL_VERSION);
    push_varint(&mut out, known_blocks.len() as u64);
    let ghost prefix = out@;
    let mut i: usize = 0;
    while i < known_blocks.len()
        invariant
            i <= known_blocks@.len(),
            kv == hashes_view(known_blocks@),
            kv.len() == known_blocks@.len(),
            known_blocks@.len() <= MAX_KNOWN_BLOCKS,
            prefix == spec_u32_to_le_bytes(PROTOCOL_VERSION) + spec_varint(
                known_blocks@.len() as u64,
            ),
            out@ == prefix + spec_hash_list(kv.take(i as int)),
            forall|j: int| 0 <= j < i ==> (#[trigger] kv[j]).len() == 32,
        decreases known_blocks@.len() - i,
    {
        let h = &known_blocks[i];
        proof {
            assert(kv[i as int] == known_blocks@[i as int]@);
        }
        if h.len() != 32 {
            return Err(EncodeError::InvalidMessage);
        }
        push_bytes(&mut out, h);
        proof {
            spec_hash_list_snoc(kv, i as int);
            assert(out@ =~= prefix + spec_hash_list(kv.take(i as int + 1)));
        }
        i = i + 1;
    }
    proof {
        assert(kv.take(kv.len() as int) =~= kv);
    }
    match stop {
        Some(h) => {
            if h.len() != 32 {
                return Err(EncodeError::InvalidMessage);
            }
            if is_zero_hash(h) {
                return Err(EncodeError::InvalidMessage);
            }
            push_bytes(&mut out, h);
        },
        None => {
            let mut i: usize = 0;
            let ghost before = out@;
            while i < 32
                invariant
                    i <= 32,
                    out@ == before + zero_hash().take(i as int),
                decreases 32 - i,
            {
                out.push(0);
                proof {
                    assert(out@ =~= before + zero_hash().take(i as int + 1));
                }
                i = i + 1;
            }
            proof {
                assert(zero_hash().take(32) =~= zero_hash());
            }
        },
    }
    Ok(out)
}

/// Encode a headers list payload, count prefix included.
fn encode_header_items(hs: &Vec<CountedHeader>) -> (r: Result<Vec<u8>, EncodeError>)
    ensures
        r matches Ok(p) ==> (headers_view(hs@).len() <= MAX_HEADERS_IN_MESSAGE && (forall|i: int|
            0 <= i < headers_view(hs@).len() ==> wf_counted_header(
                #[trigger] headers_view(hs@)[i],
            )) && p@ == spec_varint(hs@.len() as u64) + spec_header_items(headers_view(hs@))),
        r is Err ==> !(headers_view(hs@).len() <= MAX_HEADERS_IN_MESSAGE && (forall|i: int|
            0 <= i < headers_view(hs@).len() ==> wf_counted_header(
                #[trigger] headers_view(hs@)[i],
            ))),
{
    let ghost hv = headers_view(hs@);
    assert(hv.len() == hs@.len());
    if hs.len() > MAX_HEADERS_IN_MESSAGE {
        return Err(EncodeError::InvalidMessage);
    }
    let mut out: Vec<u8> = Vec::new();
    push_varint(&mut out, hs.len() as u64);
    let ghost prefix = out@;
    let mut i: usize = 0;
    while i < hs.len()
        invariant
            i <= hs@.len(),
            hv == headers_view(hs@),
            hv.len() == hs@.len(),
            hs@.len() <= MAX_HEADERS_IN_MESSAGE,
            prefix == spec_varint(hs@.len() as u64),
            out@ == prefix + spec_header_items(hv.take(i as int)),
            forall|j: int| 0 <= j < i ==> wf_counted_header(#[trigger] hv[j]),
        decreases hs@.len() - i,
    {
        let h = &hs[i];
        proof {
            assert(hv[i as int] == hs@[i as int]@);
        }
        if h.header.len() != BLOCK_HEADER_LEN {
            proof {
                assert(!wf_counted_header(hv[i as int]));
            }
            return Err(EncodeError::InvalidMessage);
        }
        push_bytes(&mut out, &h.header);
        push_varint(&mut out, h.transaction_count);
        proof {
            spec_header_items_snoc(hv, i as int);
            assert(out@ =~= prefix + spec_header_items(hv.take(i as int + 1)));
        }
        i = i + 1;
    }
    proof {
        assert(hv.take(hv.len() as int) =~= hv);
    }
    Ok(out)
}

/// Encode the payload of a message, or fail exactly when the message breaks
/// an invariant of its variant.
pub fn encode_payload(m: &Message) -> (r: Result<Vec<u8>, EncodeError>)
    ensures
        r matches Ok(p) ==> wf_message(m@) && p@ == spec_payload(m@),
        r is Err ==> !wf_message(m@),
{
    match m {
        Message::Version {
            version,
            services,
            timestamp,
            address_recv,
            address_from,
            nonce,
            user_agent,
            start_height,
            relay,
        } => {
            if address_recv.ip.len() != 16 || address_from.ip.len() != 16 {
                return Err(EncodeError::InvalidMessage);
            }
            if !valid_timestamp(*timestamp) {
                return Err(EncodeError::InvalidMessage);
            }
            let ua = user_agent.as_str().as_bytes_vec();
            if ua.len() > MAX_USER_AGENT_LEN {
                return Err(EncodeError::InvalidMessage);
            }
            let mut out: Vec<u8> = Vec::new();
            push_u32_le(&mut out, *version);
            push_u64_le(&mut out, *services);
            push_u64_le(&mut out, *timestamp as u64);
            push_addr_in_version(&mut out, address_recv);
            push_addr_in_version(&mut out, address_from);
            push_u64_le(&mut out, *nonce);
            push_varint(&mut out, ua.len() as u64);
            push_bytes(&mut out, &ua);
            push_u32_le(&mut out, *start_height);
            out.push(if *relay {
                1
            } else {
                0
            });
            proof {
                assert(out@ =~= spec_payload(m@));
            }
            Ok(out)
        },
        Message::Verack => {
            let out: Vec<u8> = Vec::new();
            proof {
                assert(out@ =~= spec_payload(m@));
            }
            Ok(out)
        },
        Message::Ping(n) => {
            let mut out: Vec<u8> = Vec::new();
            push_u64_le(&mut out, *n);
            proof {
                assert(out@ =~= spec_payload(m@));
            }
            Ok(out)
        },
        Message::Pong(n) => {
            let mut out: Vec<u8> = Vec::new();
            push_u64_le(&mut out, *n);
            proof {
                assert(out@ =~= spec_payload(m@));
            }
            Ok(out)
        },
        Message::Reject { message, ccode, reason, data } => {
            let mb = message.as_str().as_bytes_vec();
            if mb.len() > MAX_REJECT_MESSAGE_LEN {
                return Err(EncodeError::InvalidMessage);
            }
            let rb = reason.as_str().as_bytes_vec();
            if rb.len() > MAX_REJECT_REASON_LEN {
                return Err(EncodeError::InvalidMessage);
            }
            if let Some(d) = data {
                if d.len() != 32 {
                    return Err(EncodeError::InvalidMessage);
                }
            }
            let mut out: Vec<u8> = Vec::new();
            push_varint(&mut out, mb.len() as u64);
            push_bytes(&mut out, &mb);
            out.push(ccode.code());
            push_varint(&mut out, rb.len() as u64);
            push_bytes(&mut out, &rb);
            if let Some(d) = data {
                push_bytes(&mut out, d);
            }
            proof {
                assert(out@ =~= spec_payload(m@));
            }
            Ok(out)
        },
        Message::GetAddr => {
            let out: Vec<u8> = Vec::new();
            proof {
                assert(out@ =~= spec_payload(m@));
            }
            Ok(out)
        },
        Message::Addr(addrs) => {
            match encode_addr_items(addrs) {
                Ok(out) => {
                    proof {
                        assert(out@ =~= spec_payload(m@));
                    }
                    Ok(out)
                },
                Err(e) => Err(e),
            }
        },
        Message::GetBlocks { known_blocks, stop } => {
            match encode_block_locator(known_blocks, stop) {
                Ok(out) => {
                    proof {
                        assert(out@ =~= spec_payload(m@));
                    }
                    Ok(out)
                },
                Err(e) => Err(e),
            }
        },
        Message::GetHeaders { known_blocks, stop } => {
            match encode_block_locator(known_blocks, stop) {
                Ok(out) => {
                    proof {
                        assert(out@ =~= spec_payload(m@));
                    }
                    Ok(out)
                },
                Err(e) => Err(e),
            }
        },
        Message::Inv(invs) => {
            match encode_inv_items(invs) {
                Ok(out) => {
                    proof {
                        assert(out@ =~= spec_payload(m@));
                    }
                    Ok(out)
                },
                Err(e) => Err(e),
            }
        },
        Message::GetData(invs) => {
            match encode_inv_items(invs) {
                Ok(out) => {
                    proof {
                        assert(out@ =~= spec_payload(m@));
                    }
                    Ok(out)
                },
                Err(e) => Err(e),
            }
        },
        Message::NotFound(invs) => {
            match encode_inv_items(invs) {
                Ok(out) => {
                    proof {
                        assert(out@ =~= spec_payload(m@));
                    }
                    Ok(out)
                },
                Err(e) => Err(e),
            }
        },
        Message::Headers(hs) => {
            match encode_header_items(hs) {
                Ok(out) => {
                    proof {
                        assert(out@ =~= spec_payload(m@));
                    }
                    Ok(out)
                },
                Err(e) => Err(e),
            }
        },
        Message::Block(b) => {
            if b.len() > MAX_PAYLOAD_LEN {
                return Err(EncodeError::InvalidMessage);
            }
            let mut out: Vec<u8> = Vec::new();
            push_bytes(&mut out, b);
            proof {
                assert(out@ =~= spec_payload(m@));
            }
            Ok(out)
        },
        Message::Tx(t) => {
            if t.len() > MAX_PAYLOAD_LEN {
                return Err(EncodeError::InvalidMessage);
            }
            let mut out: Vec<u8> = Vec::new();
            push_bytes(&mut out, t);
            proof {
                assert(out@ =~= spec_payload(m@));
            }
            Ok(out)
        },
        Message::Mempool => {
            let out: Vec<u8> = Vec::new();
            proof {
                assert(out@ =~= spec_payload(m@));
            }
            Ok(out)
        },
        Message::FilterLoad { filter, hash_functions_count, tweak, flags } => {
            if filter.len() > MAX_FILTER_LEN {
                return Err(EncodeError::InvalidMessage);
            }
            if *hash_functions_count > MAX_FILTER_HASH_FUNCS {
                return Err(EncodeError::InvalidMessage);
            }
            let mut out: Vec<u8> = Vec::new();
            push_varint(&mut out, filter.len() as u64);
            push_bytes(&mut out, filter);
            push_u32_le(&mut out, *hash_functions_count);
            push_u32_le(&mut out, *tweak);
            out.push(*flags);
            proof {
                assert(out@ =~= spec_payload(m@));
            }
            Ok(out)
        },
        Message::FilterAdd { data } => {
            if data.len() > MAX_FILTER_ADD_LEN {
                return Err(EncodeError::InvalidMessage);
            }
            let mut out: Vec<u8> = Vec::new();
            push_varint(&mut out, data.len() as u64);
            push_bytes(&mut out, data);
            proof {
                assert(out@ =~= spec_payload(m@));
            }
            Ok(out)
        },
        Message::FilterClear => {
            let out: Vec<u8> = Vec::new();
            proof {
                assert(out@ =~= spec_payload(m@));
            }
            Ok(out)
        },
    }
}

/// Encode a message into a full frame: magic, command, length, checksum and
/// payload. Succeeds exactly on well-formed messages, and then returns
/// exactly the bytes of [`spec_encode`].
pub fn encode(m: &Message) -> (r: Result<Vec<u8>, EncodeError>)
    ensures
        r matches Ok(b) ==> wf_message(m@) && b@ == spec_encode(m@),
        r is Err ==> !wf_message(m@),
{
    let payload = match encode_payload(m) {
        Ok(p) => p,
        Err(e) => {
            return Err(e);
        },
    };
    proof {
        lemma_payload_len(m@);
    }
    let cmd = cmd_bytes_exec(command_of(m));
    let mut out: Vec<u8> = Vec::new();
    let mut mg = magic_exec();
    out.append(&mut mg);
    push_bytes(&mut out, &cmd);
    push_u32_le(&mut out, payload.len() as u32);
    let ck = checksum(&payload);
    push_bytes(&mut out, &ck);
    push_bytes(&mut out, &payload);
    proof {
        assert(out@ =~= spec_encode(m@));
    }
    Ok(out)
}

} // verus!
