//! The internal representation of network messages.
//!
//! Each protocol message is one variant of [`Message`]. The variant stands in
//! for the 12-byte ASCII command string used on the wire; translating between
//! the two is the codec's job, not the model's.
//!
//! Every type has a spec-level view (`...V`) over mathematical sequences, and
//! a well-formedness predicate that the codec establishes on decode and
//! demands on encode.

use vstd::prelude::*;
use vstd::string::StringExecFns;
use vstd::utf8::encode_utf8;

verus! {

/// Longest payload a frame may declare or carry, in bytes.
pub const MAX_PAYLOAD_LEN: usize = 2 * 1024 * 1024;

/// Longest user agent, as UTF-8 bytes.
pub const MAX_USER_AGENT_LEN: usize = 256;

/// Longest rejected-message name in a `reject`, as UTF-8 bytes.
pub const MAX_REJECT_MESSAGE_LEN: usize = 12;

/// Longest human-readable reason in a `reject`, as UTF-8 bytes.
pub const MAX_REJECT_REASON_LEN: usize = 111;

/// Most address entries in one `addr` or `addrv2` message.
pub const MAX_ADDRS_IN_MESSAGE: usize = 1000;

/// Most inventory entries in one `inv`, `getdata` or `notfound` message.
pub const MAX_INV_IN_MESSAGE: usize = 50000;

/// Most known-block hashes in one `getblocks` or `getheaders` message.
pub const MAX_KNOWN_BLOCKS: usize = 500;

/// Most headers in one `headers` message.
pub const MAX_HEADERS_IN_MESSAGE: usize = 160;

/// Fixed length of one serialized block header in this model.
pub const BLOCK_HEADER_LEN: usize = 80;

/// Longest bloom filter in a `filterload`, in bytes.
pub const MAX_FILTER_LEN: usize = 36000;

/// Largest hash-function count in a `filterload`.
pub const MAX_FILTER_HASH_FUNCS: u32 = 50;

/// Longest data element in a `filteradd`, in bytes.
pub const MAX_FILTER_ADD_LEN: usize = 520;

/// Longest address field of an unrecognized `addrv2` entry that is still
/// skipped rather than rejected.
pub const MAX_ADDRV2_ADDR_LEN: usize = 512;

/// Earliest version timestamp the codec accepts, in seconds since the Unix
/// epoch: the first second of the supported calendar range.
pub const MIN_TIMESTAMP: i64 = -8334601228800;

/// Latest version timestamp the codec accepts, in seconds since the Unix
/// epoch: the last second of the supported calendar range.
pub const MAX_TIMESTAMP: i64 = 8210266876799;

/// Reject ccodes: the fixed numeric reason codes carried by a `reject`
/// message. Each code is a stable wire constant.
#[derive(Copy, Clone, Debug, Eq, PartialEq, Structural)]
#[allow(missing_docs)]
pub enum RejectReason {
    Malformed,
    Invalid,
    Obsolete,
    Duplicate,
    Nonstandard,
    Dust,
    InsufficientFee,
    Checkpoint,
    Other,
}

/// The wire byte of a reject reason code.
pub open spec fn spec_reject_code(r: RejectReason) -> u8 {
    match r {
        RejectReason::Malformed => 0x01,
        RejectReason::Invalid => 0x10,
        RejectReason::Obsolete => 0x11,
        RejectReason::Duplicate => 0x12,
        RejectReason::Nonstandard => 0x40,
        RejectReason::Dust => 0x41,
        RejectReason::InsufficientFee => 0x42,
        RejectReason::Checkpoint => 0x43,
        RejectReason::Other => 0x50,
    }
}

/// The reason a given wire byte names, if any.
pub open spec fn spec_reject_from_code(code: u8) -> Option<RejectReason> {
    if code == 0x01 {
        Some(RejectReason::Malformed)
    } else if code == 0x10 {
        Some(RejectReason::Invalid)
    } else if code == 0x11 {
        Some(RejectReason::Obsolete)
    } else if code == 0x12 {
        Some(RejectReason::Duplicate)
    } else if code == 0x40 {
        Some(RejectReason::Nonstandard)
    } else if code == 0x41 {
        Some(RejectReason::Dust)
    } else if code == 0x42 {
        Some(RejectReason::InsufficientFee)
    } else if code == 0x43 {
        Some(RejectReason::Checkpoint)
    } else if code == 0x50 {
        Some(RejectReason::Other)
    } else {
        None
    }
}

impl RejectReason {
    /// The numeric code this reason is written as on the wire.
    pub fn code(&self) -> (r: u8)
        ensures
            r == spec_reject_code(*self),
    {
        match self {
            RejectReason::Malformed => 0x01,
            RejectReason::Invalid => 0x10,
            RejectReason::Obsolete => 0x11,
            RejectReason::Duplicate => 0x12,
            RejectReason::Nonstandard => 0x40,
            RejectReason::Dust => 0x41,
            RejectReason::InsufficientFee => 0x42,
            RejectReason::Checkpoint => 0x43,
            RejectReason::Other => 0x50,
        }
    }

    /// The reason a given wire byte names, if any.
    pub fn from_code(code: u8) -> (r: Option<RejectReason>)
        ensures
            r == spec_reject_from_code(code),
            r matches Some(rr) ==> spec_reject_code(rr) == code,
            r is None ==> forall|rr: RejectReason| spec_reject_code(rr) != code,
    {
        match code {
            0x01 => Some(RejectReason::Malformed),
            0x10 => Some(RejectReason::Invalid),
            0x11 => Some(RejectReason::Obsolete),
            0x12 => Some(RejectReason::Duplicate),
            0x40 => Some(RejectReason::Nonstandard),
            0x41 => Some(RejectReason::Dust),
            0x42 => Some(RejectReason::InsufficientFee),
            0x43 => Some(RejectReason::Checkpoint),
            0x50 => Some(RejectReason::Other),
            _ => None,
        }
    }
}

/// The kind of object an inventory entry advertises.
#[derive(Copy, Clone, Debug, Eq, PartialEq, Structural, PartialOrd, Ord)]
pub enum InvKind {
    /// The null kind; data with this kind is ignored by peers.
    Error,
    /// An unmined transaction.
    Tx,
    /// A block.
    Block,
    /// A filtered block; never requested by this node.
    FilteredBlock,
}

/// The wire code of an inventory kind.
pub open spec fn spec_inv_kind_code(k: InvKind) -> u32 {
    match k {
        InvKind::Error => 0,
        InvKind::Tx => 1,
        InvKind::Block => 2,
        InvKind::FilteredBlock => 3,
    }
}

/// The inventory kind a given wire code names, if any.
pub open spec fn spec_inv_kind_from_code(code: u32) -> Option<InvKind> {
    if code == 0 {
        Some(InvKind::Error)
    } else if code == 1 {
        Some(InvKind::Tx)
    } else if code == 2 {
        Some(InvKind::Block)
    } else if code == 3 {
        Some(InvKind::FilteredBlock)
    } else {
        None
    }
}

impl InvKind {
    /// The numeric code this kind is written as on the wire.
    pub fn code(&self) -> (r: u32)
        ensures
            r == spec_inv_kind_code(*self),
    {
        match self {
            InvKind::Error => 0,
            InvKind::Tx => 1,
            InvKind::Block => 2,
            InvKind::FilteredBlock => 3,
        }
    }

    /// The kind a given wire code names, if any.
    pub fn from_code(code: u32) -> (r: Option<InvKind>)
        ensures
            r == spec_inv_kind_from_code(code),
            r matches Some(k) ==> spec_inv_kind_code(k) == code,
            r is None ==> forall|k: InvKind| spec_inv_kind_code(k) != code,
    {
        match code {
            0 => Some(InvKind::Error),
            1 => Some(InvKind::Tx),
            2 => Some(InvKind::Block),
            3 => Some(InvKind::FilteredBlock),
            _ => None,
        }
    }
}

/// A (kind, 32-byte hash) pair identifying an object a peer advertises or
/// requests. Equality and ordering are by kind, then hash.
#[derive(Clone, Debug, Eq, PartialEq, PartialOrd, Ord)]
pub struct InventoryHash {
    /// What kind of object the hash names.
    pub kind: InvKind,
    /// The object's 32-byte hash.
    pub hash: Vec<u8>,
}

/// Spec view of an [`InventoryHash`].
pub struct InventoryHashV {
    /// What kind of object the hash names.
    pub kind: InvKind,
    /// The object's 32-byte hash.
    pub hash: Seq<u8>,
}

impl View for InventoryHash {
    type V = InventoryHashV;

    open spec fn view(&self) -> InventoryHashV {
        InventoryHashV { kind: self.kind, hash: self.hash@ }
    }
}

/// An inventory hash is well formed when its hash is exactly 32 bytes.
pub open spec fn wf_inventory(i: InventoryHashV) -> bool {
    i.hash.len() == 32
}

/// One annotated network address from an `addr` message.
#[derive(Clone, Debug, Eq, PartialEq)]
pub struct MetaAddr {
    /// When the peer sending this entry last saw the address, as seconds
    /// since the Unix epoch; untrusted, as the peer reports it.
    pub untrusted_last_seen: u32,
    /// The services the address claims to offer; untrusted.
    pub untrusted_services: u64,
    /// The 16-byte IP address (IPv4 addresses in mapped form).
    pub ip: Vec<u8>,
    /// The TCP port.
    pub port: u16,
}

/// Spec view of a [`MetaAddr`].
pub struct MetaAddrV {
    /// When the peer sending this entry last saw the address.
    pub untrusted_last_seen: u32,
    /// The services the address claims to offer.
    pub untrusted_services: u64,
    /// The 16-byte IP address.
    pub ip: Seq<u8>,
    /// The TCP port.
    pub port: u16,
}

impl View for MetaAddr {
    type V = MetaAddrV;

    open spec fn view(&self) -> MetaAddrV {
        MetaAddrV {
            untrusted_last_seen: self.untrusted_last_seen,
            untrusted_services: self.untrusted_services,
            ip: self.ip@,
            port: self.port,
        }
    }
}

/// A meta address is well formed when its IP is exactly 16 bytes.
pub open spec fn wf_meta_addr(a: MetaAddrV) -> bool {
    a.ip.len() == 16
}

/// A network address with its advertised services, as carried twice inside a
/// `version` message.
#[derive(Clone, Debug, Eq, PartialEq)]
pub struct AddrInVersion {
    /// The services the address claims to offer; untrusted.
    pub untrusted_services: u64,
    /// The 16-byte IP address (IPv4 addresses in mapped form).
    pub ip: Vec<u8>,
    /// The TCP port.
    pub port: u16,
}

/// Spec view of an [`AddrInVersion`].
pub struct AddrInVersionV {
    /// The services the address claims to offer.
    pub untrusted_services: u64,
    /// The 16-byte IP address.
    pub ip: Seq<u8>,
    /// The TCP port.
    pub port: u16,
}

impl View for AddrInVersion {
    type V = AddrInVersionV;

    open spec fn view(&self) -> AddrInVersionV {
        AddrInVersionV {
            untrusted_services: self.untrusted_services,
            ip: self.ip@,
            port: self.port,
        }
    }
}

/// A version-handshake address is well formed when its IP is exactly 16
/// bytes.
pub open spec fn wf_addr_in_version(a: AddrInVersionV) -> bool {
    a.ip.len() == 16
}

/// One block header with the transaction count of its block, from a
/// `headers` message.
#[derive(Clone, Debug, Eq, PartialEq)]
pub struct CountedHeader {
    /// The serialized header, a fixed-length opaque blob in this model.
    pub header: Vec<u8>,
    /// How many transactions the block holds.
    pub transaction_count: u64,
}

/// Spec view of a [`CountedHeader`].
pub struct CountedHeaderV {
    /// The serialized header.
    pub header: Seq<u8>,
    /// How many transactions the block holds.
    pub transaction_count: u64,
}

impl View for CountedHeader {
    type V = CountedHeaderV;

    open spec fn view(&self) -> CountedHeaderV {
        CountedHeaderV { header: self.header@, transaction_count: self.transaction_count }
    }
}

/// A counted header is well formed when its header blob has the fixed length.
pub open spec fn wf_counted_header(h: CountedHeaderV) -> bool {
    h.header.len() == BLOCK_HEADER_LEN
}

/// The all-zero 32-byte hash, written on the wire for an absent stop hash.
pub open spec fn zero_hash() -> Seq<u8> {
    Seq::new(32, |i: int| 0u8)
}

/// A Bitcoin-style network message: the closed set of protocol messages this
/// node can represent, one variant per wire command.
#[derive(Clone, Debug, Eq, PartialEq)]
pub enum Message {
    /// A `version` message: the handshake opener, carrying the sender's
    /// protocol version, services, clock, addresses, nonce, user agent,
    /// chain height and relay preference.
    Version {
        /// The network protocol version the sender supports.
        version: u32,
        /// The service bits the sender advertises.
        services: u64,
        /// When the message was sent, as signed seconds since the Unix
        /// epoch; must lie in the supported calendar range.
        timestamp: i64,
        /// The address of the node receiving this message.
        address_recv: AddrInVersion,
        /// The address of the node sending this message.
        address_from: AddrInVersion,
        /// A random nonce used to detect connections to self.
        nonce: u64,
        /// The sender's user agent, free text.
        user_agent: String,
        /// The last block height the sender knows of.
        start_height: u32,
        /// Whether the receiver should relay transactions to the sender.
        relay: bool,
    },
    /// A `verack` message, acknowledging a `version`.
    Verack,
    /// A `ping` message carrying a nonce.
    Ping(
        /// The nonce the answering `pong` must echo.
        u64,
    ),
    /// A `pong` message echoing a ping nonce.
    Pong(
        /// The nonce of the `ping` this answers.
        u64,
    ),
    /// A `reject` message, telling a peer why something it sent was refused.
    Reject {
        /// The command name of the rejected message, free text.
        message: String,
        /// The fixed reason code.
        ccode: RejectReason,
        /// A human-readable reason, free text.
        reason: String,
        /// Optional 32 bytes of extra data, by convention the hash of the
        /// rejected object.
        data: Option<Vec<u8>>,
    },
    /// A `getaddr` message, requesting peer addresses.
    GetAddr,
    /// An `addr` message (or a received `addrv2`): a list of annotated peer
    /// addresses. Entries of unrecognized address types are dropped during
    /// decode, so the list may be empty even when the peer sent data.
    Addr(Vec<MetaAddr>),
    /// A `getblocks` message: known block hashes from highest to lowest
    /// height, and an optional stop hash.
    GetBlocks {
        /// Hashes of known blocks, highest height first.
        known_blocks: Vec<Vec<u8>>,
        /// The last block to request, if any; never the all-zero hash.
        stop: Option<Vec<u8>>,
    },
    /// An `inv` message, advertising objects.
    Inv(Vec<InventoryHash>),
    /// A `getheaders` message: known block hashes and an optional stop hash.
    GetHeaders {
        /// Hashes of known blocks, highest height first.
        known_blocks: Vec<Vec<u8>>,
        /// The last header to request, if any; never the all-zero hash.
        stop: Option<Vec<u8>>,
    },
    /// A `headers` message: block headers, each with its transaction count.
    Headers(Vec<CountedHeader>),
    /// A `getdata` message, requesting objects by inventory hash.
    GetData(Vec<InventoryHash>),
    /// A `block` message carrying one full serialized block.
    Block(Vec<u8>),
    /// A `tx` message carrying one serialized unmined transaction.
    Tx(Vec<u8>),
    /// A `notfound` message, listing requested objects the peer lacks.
    NotFound(Vec<InventoryHash>),
    /// A `mempool` message, requesting the peer's mempool contents.
    Mempool,
    /// A `filterload` message; parsed for compatibility, never acted on.
    FilterLoad {
        /// The bloom filter bit field, at most 36,000 bytes.
        filter: Vec<u8>,
        /// How many hash functions the filter uses, at most 50.
        hash_functions_count: u32,
        /// A random value added to the hash seed.
        tweak: u32,
        /// Flags controlling how matched items are added to the filter.
        flags: u8,
    },
    /// A `filteradd` message; parsed for compatibility, never acted on.
    FilterAdd {
        /// The data element to add, at most 520 bytes.
        data: Vec<u8>,
    },
    /// A `filterclear` message; parsed for compatibility, never acted on.
    FilterClear,
}

/// Spec view of a [`Message`]: the same variants over mathematical values.
pub enum MessageV {
    /// View of `Message::Version`.
    Version {
        /// The network protocol version the sender supports.
        version: u32,
        /// The service bits the sender advertises.
        services: u64,
        /// When the message was sent.
        timestamp: i64,
        /// The address of the node receiving this message.
        address_recv: AddrInVersionV,
        /// The address of the node sending this message.
        address_from: AddrInVersionV,
        /// A random nonce used to detect connections to self.
        nonce: u64,
        /// The sender's user agent.
        user_agent: Seq<char>,
        /// The last block height the sender knows of.
        start_height: u32,
        /// Whether the receiver should relay transactions to the sender.
        relay: bool,
    },
    /// View of `Message::Verack`.
    Verack,
    /// View of `Message::Ping`.
    Ping(u64),
    /// View of `Message::Pong`.
    Pong(u64),
    /// View of `Message::Reject`.
    Reject {
        /// The command name of the rejected message.
        message: Seq<char>,
        /// The fixed reason code.
        ccode: RejectReason,
        /// A human-readable reason.
        reason: Seq<char>,
        /// Optional 32 bytes of extra data.
        data: Option<Seq<u8>>,
    },
    /// View of `Message::GetAddr`.
    GetAddr,
    /// View of `Message::Addr`.
    Addr(Seq<MetaAddrV>),
    /// View of `Message::GetBlocks`.
    GetBlocks {
        /// Hashes of known blocks, highest height first.
        known_blocks: Seq<Seq<u8>>,
        /// The last block to request, if any.
        stop: Option<Seq<u8>>,
    },
    /// View of `Message::Inv`.
    Inv(Seq<InventoryHashV>),
    /// View of `Message::GetHeaders`.
    GetHeaders {
        /// Hashes of known blocks, highest height first.
        known_blocks: Seq<Seq<u8>>,
        /// The last header to request, if any.
        stop: Option<Seq<u8>>,
    },
    /// View of `Message::Headers`.
    Headers(Seq<CountedHeaderV>),
    /// View of `Message::GetData`.
    GetData(Seq<InventoryHashV>),
    /// View of `Message::Block`.
    Block(Seq<u8>),
    /// View of `Message::Tx`.
    Tx(Seq<u8>),
    /// View of `Message::NotFound`.
    NotFound(Seq<InventoryHashV>),
    /// View of `Message::Mempool`.
    Mempool,
    /// View of `Message::FilterLoad`.
    FilterLoad {
        /// The bloom filter bit field.
        filter: Seq<u8>,
        /// How many hash functions the filter uses.
        hash_functions_count: u32,
        /// A random value added to the hash seed.
        tweak: u32,
        /// Flags controlling how matched items are added to the filter.
        flags: u8,
    },
    /// View of `Message::FilterAdd`.
    FilterAdd {
        /// The data element to add.
        data: Seq<u8>,
    },
    /// View of `Message::FilterClear`.
    FilterClear,
}

/// View of a vector of meta addresses.
pub open spec fn addrs_view(v: Seq<MetaAddr>) -> Seq<MetaAddrV> {
    v.map_values(|a: MetaAddr| a@)
}

/// View of a vector of 32-byte hashes.
pub open spec fn hashes_view(v: Seq<Vec<u8>>) -> Seq<Seq<u8>> {
    v.map_values(|h: Vec<u8>| h@)
}

/// View of a vector of inventory hashes.
pub open spec fn invs_view(v: Seq<InventoryHash>) -> Seq<InventoryHashV> {
    v.map_values(|i: InventoryHash| i@)
}

/// View of a vector of counted headers.
pub open spec fn headers_view(v: Seq<CountedHeader>) -> Seq<CountedHeaderV> {
    v.map_values(|h: CountedHeader| h@)
}

impl View for Message {
    type V = MessageV;

    open spec fn view(&self) -> MessageV {
        match self {
            Message::Version {
                version,
                services,
                timestamp,
                address_recv,
                address_from,
                nonce,
                user_agent,
                start_height,
                relay,
            } => MessageV::Version {
                version: *version,
                services: *services,
                timestamp: *timestamp,
                address_recv: address_recv@,
                address_from: address_from@,
                nonce: *nonce,
                user_agent: user_agent@,
                start_height: *start_height,
                relay: *relay,
            },
            Message::Verack => MessageV::Verack,
            Message::Ping(n) => MessageV::Ping(*n),
            Message::Pong(n) => MessageV::Pong(*n),
            Message::Reject { message, ccode, reason, data } => MessageV::Reject {
                message: message@,
                ccode: *ccode,
                reason: reason@,
                data: match data {
                    Some(d) => Some(d@),
                    None => None,
                },
            },
            Message::GetAddr => MessageV::GetAddr,
            Message::Addr(addrs) => MessageV::Addr(addrs_view(addrs@)),
            Message::GetBlocks { known_blocks, stop } => MessageV::GetBlocks {
                known_blocks: hashes_view(known_blocks@),
                stop: match stop {
                    Some(h) => Some(h@),
                    None => None,
                },
            },
            Message::Inv(invs) => MessageV::Inv(invs_view(invs@)),
            Message::GetHeaders { known_blocks, stop } => MessageV::GetHeaders {
                known_blocks: hashes_view(known_blocks@),
                stop: match stop {
                    Some(h) => Some(h@),
                    None => None,
                },
            },
            Message::Headers(hs) => MessageV::Headers(headers_view(hs@)),
            Message::GetData(invs) => MessageV::GetData(invs_view(invs@)),
            Message::Block(b) => MessageV::Block(b@),
            Message::Tx(t) => MessageV::Tx(t@),
            Message::NotFound(invs) => MessageV::NotFound(invs_view(invs@)),
            Message::Mempool => MessageV::Mempool,
            Message::FilterLoad { filter, hash_functions_count, tweak, flags } => {
                MessageV::FilterLoad {
                    filter: filter@,
                    hash_functions_count: *hash_functions_count,
                    tweak: *tweak,
                    flags: *flags,
                }
            },
            Message::FilterAdd { data } => MessageV::FilterAdd { data: data@ },
            Message::FilterClear => MessageV::FilterClear,
        }
    }
}

/// The invariant a message must satisfy to have a wire encoding: every
/// length-bounded field within its bound, every fixed-size field of its
/// size, and the version timestamp in the supported calendar range.
pub open spec fn wf_message(m: MessageV) -> bool {
    match m {
        MessageV::Version { timestamp, address_recv, address_from, user_agent, .. } => {
            &&& wf_addr_in_version(address_recv)
            &&& wf_addr_in_version(address_from)
            &&& MIN_TIMESTAMP <= timestamp <= MAX_TIMESTAMP
            &&& encode_utf8(user_agent).len() <= MAX_USER_AGENT_LEN
        },
        MessageV::Verack => true,
        MessageV::Ping(_) => true,
        MessageV::Pong(_) => true,
        MessageV::Reject { message, reason, data, .. } => {
            &&& encode_utf8(message).len() <= MAX_REJECT_MESSAGE_LEN
            &&& encode_utf8(reason).len() <= MAX_REJECT_REASON_LEN
            &&& (data matches Some(d) ==> d.len() == 32)
        },
        MessageV::GetAddr => true,
        MessageV::Addr(addrs) => {
            &&& addrs.len() <= MAX_ADDRS_IN_MESSAGE
            &&& forall|i: int| 0 <= i < addrs.len() ==> wf_meta_addr(#[trigger] addrs[i])
        },
        MessageV::GetBlocks { known_blocks, stop } => wf_block_locator(known_blocks, stop),
        MessageV::Inv(invs) => wf_inv_list(invs),
        MessageV::GetHeaders { known_blocks, stop } => wf_block_locator(known_blocks, stop),
        MessageV::Headers(hs) => {
            &&& hs.len() <= MAX_HEADERS_IN_MESSAGE
            &&& forall|i: int| 0 <= i < hs.len() ==> wf_counted_header(#[trigger] hs[i])
        },
        MessageV::GetData(invs) => wf_inv_list(invs),
        MessageV::Block(b) => b.len() <= MAX_PAYLOAD_LEN,
        MessageV::Tx(t) => t.len() <= MAX_PAYLOAD_LEN,
        MessageV::NotFound(invs) => wf_inv_list(invs),
        MessageV::Mempool => true,
        MessageV::FilterLoad { filter, hash_functions_count, .. } => {
            &&& filter.len() <= MAX_FILTER_LEN
            &&& hash_functions_count <= MAX_FILTER_HASH_FUNCS
        },
        MessageV::FilterAdd { data } => data.len() <= MAX_FILTER_ADD_LEN,
        MessageV::FilterClear => true,
    }
}

/// The invariant of a known-blocks list with its optional stop hash: a
/// bounded list of 32-byte hashes, and a stop hash that is 32 bytes and not
/// all zero, since the all-zero hash is the wire form of "no stop".
pub open spec fn wf_block_locator(known_blocks: Seq<Seq<u8>>, stop: Option<Seq<u8>>) -> bool {
    &&& known_blocks.len() <= MAX_KNOWN_BLOCKS
    &&& forall|i: int| 0 <= i < known_blocks.len() ==> (#[trigger] known_blocks[i]).len() == 32
    &&& (stop matches Some(h) ==> h.len() == 32 && h != zero_hash())
}

/// The invariant of an inventory list: bounded, all hashes 32 bytes.
pub open spec fn wf_inv_list(invs: Seq<InventoryHashV>) -> bool {
    &&& invs.len() <= MAX_INV_IN_MESSAGE
    &&& forall|i: int| 0 <= i < invs.len() ==> wf_inventory(#[trigger] invs[i])
}

/// Turn an internal error, given by its description and the description of
/// its underlying cause if it has one, into the `reject` message sent to the
/// peer: the reason code defaults to `Other`, and the reason text is the
/// cause's description, falling back to the error's own description when no
/// cause exists.
pub fn reject_from_error(description: String, source_description: Option<String>) -> (r: Message)
    ensures
        (r@ matches MessageV::Reject { message, ccode, reason, data } && message == description@
            && ccode == RejectReason::Other && data is None && reason == (match source_description {
            Some(s) => s@,
            None => description@,
        })),
{
    let reason = match source_description {
        Some(s) => s,
        None => description.clone(),
    };
    Message::Reject { message: description, ccode: RejectReason::Other, reason, data: None }
}


/// One decimal digit as a character.
pub open spec fn dec_digit(d: nat) -> char {
    if d == 0 {
        '0'
    } else if d == 1 {
        '1'
    } else if d == 2 {
        '2'
    } else if d == 3 {
        '3'
    } else if d == 4 {
        '4'
    } else if d == 5 {
        '5'
    } else if d == 6 {
        '6'
    } else if d == 7 {
        '7'
    } else if d == 8 {
        '8'
    } else {
        '9'
    }
}

/// The decimal rendering of a number, most significant digit first.
pub open spec fn dec_digits(n: nat) -> Seq<char>
    decreases n,
{
    if n < 10 {
        seq![dec_digit(n)]
    } else {
        dec_digits(n / 10) + seq![dec_digit(n % 10)]
    }
}

/// Render a number in decimal.
pub fn u64_to_string(n: u64) -> (r: String)
    ensures
        r@ == dec_digits(n as nat),
    decreases n,
{
    let d = n % 10;
    let ds: &str = if d == 0 {
        "0"
    } else if d == 1 {
        "1"
    } else if d == 2 {
        "2"
    } else if d == 3 {
        "3"
    } else if d == 4 {
        "4"
    } else if d == 5 {
        "5"
    } else if d == 6 {
        "6"
    } else if d == 7 {
        "7"
    } else if d == 8 {
        "8"
    } else {
        "9"
    };
    proof {
        reveal_strlit("0");
        reveal_strlit("1");
        reveal_strlit("2");
        reveal_strlit("3");
        reveal_strlit("4");
        reveal_strlit("5");
        reveal_strlit("6");
        reveal_strlit("7");
        reveal_strlit("8");
        reveal_strlit("9");
        assert(ds@ =~= seq![dec_digit((n % 10) as nat)]);
    }
    if n < 10 {
        let r = String::from_str(ds);
        proof {
            assert(r@ =~= dec_digits(n as nat));
        }
        r
    } else {
        let mut prefix = u64_to_string(n / 10);
        prefix.append(ds);
        proof {
            assert(prefix@ =~= dec_digits(n as nat));
        }
        prefix
    }
}

/// The one-line rendering of a message: the command name, and for the larger
/// variants a structural summary alone — list entry counts and the presence
/// of optional fields, never a payload.
pub open spec fn spec_summary(m: MessageV) -> Seq<char> {
    match m {
        MessageV::Version { user_agent, .. } => "version { user_agent: "@ + user_agent + " }"@,
        MessageV::Verack => "verack"@,
        MessageV::Ping(_) => "ping"@,
        MessageV::Pong(_) => "pong"@,
        MessageV::Reject { message, reason, data, .. } => "reject { message: "@ + message
            + ", reason: "@ + reason + ", data: "@ + (if data is Some {
            "Some"@
        } else {
            "None"@
        }) + " }"@,
        MessageV::GetAddr => "getaddr"@,
        MessageV::Addr(addrs) => "addr { addrs: "@ + dec_digits(addrs.len()) + " }"@,
        MessageV::GetBlocks { known_blocks, stop } => "getblocks { known_blocks: "@ + dec_digits(
            known_blocks.len(),
        ) + ", stop: "@ + (if stop is Some {
            "Some"@
        } else {
            "None"@
        }) + " }"@,
        MessageV::Inv(invs) => "inv { invs: "@ + dec_digits(invs.len()) + " }"@,
        MessageV::GetHeaders { known_blocks, stop } => "getheaders { known_blocks: "@
            + dec_digits(known_blocks.len()) + ", stop: "@ + (if stop is Some {
            "Some"@
        } else {
            "None"@
        }) + " }"@,
        MessageV::Headers(hs) => "headers { headers: "@ + dec_digits(hs.len()) + " }"@,
        MessageV::GetData(invs) => "getdata { invs: "@ + dec_digits(invs.len()) + " }"@,
        MessageV::Block(_) => "block"@,
        MessageV::Tx(_) => "tx"@,
        MessageV::NotFound(invs) => "notfound { invs: "@ + dec_digits(invs.len()) + " }"@,
        MessageV::Mempool => "mempool"@,
        MessageV::FilterLoad { .. } => "filterload"@,
        MessageV::FilterAdd { .. } => "filteradd"@,
        MessageV::FilterClear => "filterclear"@,
    }
}

impl Message {
    /// A short, human-readable rendering for logging: structural summaries
    /// only, never a block, transaction or address payload.
    pub fn summary(&self) -> (r: String)
        ensures
            r@ == spec_summary(self@),
    {
        match self {
            Message::Version { user_agent, .. } => {
                let mut s = String::from_str("version { user_agent: ");
                s.append(user_agent.as_str());
                s.append(" }");
                proof {
                    assert(s@ =~= spec_summary(self@));
                }
                s
            },
            Message::Verack => String::from_str("verack"),
            Message::Ping(_) => String::from_str("ping"),
            Message::Pong(_) => String::from_str("pong"),
            Message::Reject { message, reason, data, .. } => {
                let mut s = String::from_str("reject { message: ");
                s.append(message.as_str());
                s.append(", reason: ");
                s.append(reason.as_str());
                s.append(", data: ");
                s.append(
                    if data.is_some() {
                        "Some"
                    } else {
                        "None"
                    },
                );
                s.append(" }");
                proof {
                    assert(s@ =~= spec_summary(self@));
                }
                s
            },
            Message::GetAddr => String::from_str("getaddr"),
            Message::Addr(addrs) => {
                let mut s = String::from_str("addr { addrs: ");
                let c = u64_to_string(addrs.len() as u64);
                s.append(c.as_str());
                s.append(" }");
                proof {
                    assert(s@ =~= spec_summary(self@));
                }
                s
            },
            Message::GetBlocks { known_blocks, stop } => {
                let mut s = String::from_str("getblocks { known_blocks: ");
                let c = u64_to_string(known_blocks.len() as u64);
                s.append(c.as_str());
                s.append(", stop: ");
                s.append(
                    if stop.is_some() {
                        "Some"
                    } else {
                        "None"
                    },
                );
                s.append(" }");
                proof {
                    assert(s@ =~= spec_summary(self@));
                }
                s
            },
            Message::Inv(invs) => {
                let mut s = String::from_str("inv { invs: ");
                let c = u64_to_string(invs.len() as u64);
                s.append(c.as_str());
                s.append(" }");
                proof {
                    assert(s@ =~= spec_summary(self@));
                }
                s
            },
            Message::GetHeaders { known_blocks, stop } => {
                let mut s = String::from_str("getheaders { known_blocks: ");
                let c = u64_to_string(known_blocks.len() as u64);
                s.append(c.as_str());
                s.append(", stop: ");
                s.append(
                    if stop.is_some() {
                        "Some"
                    } else {
                        "None"
                    },
                );
                s.append(" }");
                proof {
                    assert(s@ =~= spec_summary(self@));
                }
                s
            },
            Message::Headers(hs) => {
                let mut s = String::from_str("headers { headers: ");
                let c = u64_to_string(hs.len() as u64);
                s.append(c.as_str());
                s.append(" }");
                proof {
                    assert(s@ =~= spec_summary(self@));
                }
                s
            },
            Message::GetData(invs) => {
                let mut s = String::from_str("getdata { invs: ");
                let c = u64_to_string(invs.len() as u64);
                s.append(c.as_str());
                s.append(" }");
                proof {
                    assert(s@ =~= spec_summary(self@));
                }
                s
            },
            Message::Block(_) => String::from_str("block"),
            Message::Tx(_) => String::from_str("tx"),
            Message::NotFound(invs) => {
                let mut s = String::from_str("notfound { invs: ");
                let c = u64_to_string(invs.len() as u64);
                s.append(c.as_str());
                s.append(" }");
                proof {
                    assert(s@ =~= spec_summary(self@));
                }
                s
            },
            Message::Mempool => String::from_str("mempool"),
            Message::FilterLoad { .. } => String::from_str("filterload"),
            Message::FilterAdd { .. } => String::from_str("filteradd"),
            Message::FilterClear => String::from_str("filterclear"),
        }
    }
}

} // verus!
