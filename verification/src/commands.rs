//! The 12-byte ASCII command names of the wire format, zero padded, and the
//! mapping between a command field and the message variant it selects.

use vstd::prelude::*;

verus! {

/// One wire command: the discriminant the 12-byte command field selects.
#[derive(Copy, Clone, Debug, Eq, PartialEq, Structural)]
#[allow(missing_docs)]
pub enum CmdId {
    Version,
    Verack,
    Ping,
    Pong,
    Reject,
    GetAddr,
    Addr,
    AddrV2,
    GetBlocks,
    Inv,
    GetHeaders,
    Headers,
    GetData,
    Block,
    Tx,
    NotFound,
    Mempool,
    FilterLoad,
    FilterAdd,
    FilterClear,
}

/// The padded 12-byte command field written on the wire for a command.
pub open spec fn cmd_bytes(id: CmdId) -> Seq<u8> {
    match id {
        // "version"
        CmdId::Version => seq![118u8, 101, 114, 115, 105, 111, 110, 0, 0, 0, 0, 0],
        // "verack"
        CmdId::Verack => seq![118u8, 101, 114, 97, 99, 107, 0, 0, 0, 0, 0, 0],
        // "ping"
        CmdId::Ping => seq![112u8, 105, 110, 103, 0, 0, 0, 0, 0, 0, 0, 0],
        // "pong"
        CmdId::Pong => seq![112u8, 111, 110, 103, 0, 0, 0, 0, 0, 0, 0, 0],
        // "reject"
        CmdId::Reject => seq![114u8, 101, 106, 101, 99, 116, 0, 0, 0, 0, 0, 0],
        // "getaddr"
        CmdId::GetAddr => seq![103u8, 101, 116, 97, 100, 100, 114, 0, 0, 0, 0, 0],
        // "addr"
        CmdId::Addr => seq![97u8, 100, 100, 114, 0, 0, 0, 0, 0, 0, 0, 0],
        // "addrv2"
        CmdId::AddrV2 => seq![97u8, 100, 100, 114, 118, 50, 0, 0, 0, 0, 0, 0],
        // "getblocks"
        CmdId::GetBlocks => seq![103u8, 101, 116, 98, 108, 111, 99, 107, 115, 0, 0, 0],
        // "inv"
        CmdId::Inv => seq![105u8, 110, 118, 0, 0, 0, 0, 0, 0, 0, 0, 0],
        // "getheaders"
        CmdId::GetHeaders => seq![103u8, 101, 116, 104, 101, 97, 100, 101, 114, 115, 0, 0],
        // "headers"
        CmdId::Headers => seq![104u8, 101, 97, 100, 101, 114, 115, 0, 0, 0, 0, 0],
        // "getdata"
        CmdId::GetData => seq![103u8, 101, 116, 100, 97, 116, 97, 0, 0, 0, 0, 0],
        // "block"
        CmdId::Block => seq![98u8, 108, 111, 99, 107, 0, 0, 0, 0, 0, 0, 0],
        // "tx"
        CmdId::Tx => seq![116u8, 120, 0, 0, 0, 0, 0, 0, 0, 0, 0, 0],
        // "notfound"
        CmdId::NotFound => seq![110u8, 111, 116, 102, 111, 117, 110, 100, 0, 0, 0, 0],
        // "mempool"
        CmdId::Mempool => seq![109u8, 101, 109, 112, 111, 111, 108, 0, 0, 0, 0, 0],
        // "filterload"
        CmdId::FilterLoad => seq![102u8, 105, 108, 116, 101, 114, 108, 111, 97, 100, 0, 0],
        // "filteradd"
        CmdId::FilterAdd => seq![102u8, 105, 108, 116, 101, 114, 97, 100, 100, 0, 0, 0],
        // "filterclear"
        CmdId::FilterClear => seq![102u8, 105, 108, 116, 101, 114, 99, 108, 101, 97, 114, 0],
    }
}

/// The padded 12-byte command field, as a byte vector.
pub fn cmd_bytes_exec(id: CmdId) -> (r: Vec<u8>)
    ensures
        r@ == cmd_bytes(id),
{
    let r: Vec<u8> = match id {
        CmdId::Version => vec![118u8, 101, 114, 115, 105, 111, 110, 0, 0, 0, 0, 0],
        CmdId::Verack => vec![118u8, 101, 114, 97, 99, 107, 0, 0, 0, 0, 0, 0],
        CmdId::Ping => vec![112u8, 105, 110, 103, 0, 0, 0, 0, 0, 0, 0, 0],
        CmdId::Pong => vec![112u8, 111, 110, 103, 0, 0, 0, 0, 0, 0, 0, 0],
        CmdId::Reject => vec![114u8, 101, 106, 101, 99, 116, 0, 0, 0, 0, 0, 0],
        CmdId::GetAddr => vec![103u8, 101, 116, 97, 100, 100, 114, 0, 0, 0, 0, 0],
        CmdId::Addr => vec![97u8, 100, 100, 114, 0, 0, 0, 0, 0, 0, 0, 0],
        CmdId::AddrV2 => vec![97u8, 100, 100, 114, 118, 50, 0, 0, 0, 0, 0, 0],
        CmdId::GetBlocks => vec![103u8, 101, 116, 98, 108, 111, 99, 107, 115, 0, 0, 0],
        CmdId::Inv => vec![105u8, 110, 118, 0, 0, 0, 0, 0, 0, 0, 0, 0],
        CmdId::GetHeaders => vec![103u8, 101, 116, 104, 101, 97, 100, 101, 114, 115, 0, 0],
        CmdId::Headers => vec![104u8, 101, 97, 100, 101, 114, 115, 0, 0, 0, 0, 0],
        CmdId::GetData => vec![103u8, 101, 116, 100, 97, 116, 97, 0, 0, 0, 0, 0],
        CmdId::Block => vec![98u8, 108, 111, 99, 107, 0, 0, 0, 0, 0, 0, 0],
        CmdId::Tx => vec![116u8, 120, 0, 0, 0, 0, 0, 0, 0, 0, 0, 0],
        CmdId::NotFound => vec![110u8, 111, 116, 102, 111, 117, 110, 100, 0, 0, 0, 0],
        CmdId::Mempool => vec![109u8, 101, 109, 112, 111, 111, 108, 0, 0, 0, 0, 0],
        CmdId::FilterLoad => vec![102u8, 105, 108, 116, 101, 114, 108, 111, 97, 100, 0, 0],
        CmdId::FilterAdd => vec![102u8, 105, 108, 116, 101, 114, 97, 100, 100, 0, 0, 0],
        CmdId::FilterClear => vec![102u8, 105, 108, 116, 101, 114, 99, 108, 101, 97, 114, 0],
    };
    proof {
        assert(r@ =~= cmd_bytes(id));
    }
    r
}

/// Which command a 12-byte command field names, if any.
pub open spec fn command_id(c: Seq<u8>) -> Option<CmdId> {
    if c == cmd_bytes(CmdId::Version) {
        Some(CmdId::Version)
    } else if c == cmd_bytes(CmdId::Verack) {
        Some(CmdId::Verack)
    } else if c == cmd_bytes(CmdId::Ping) {
        Some(CmdId::Ping)
    } else if c == cmd_bytes(CmdId::Pong) {
        Some(CmdId::Pong)
    } else if c == cmd_bytes(CmdId::Reject) {
        Some(CmdId::Reject)
    } else if c == cmd_bytes(CmdId::GetAddr) {
        Some(CmdId::GetAddr)
    } else if c == cmd_bytes(CmdId::Addr) {
        Some(CmdId::Addr)
    } else if c == cmd_bytes(CmdId::AddrV2) {
        Some(CmdId::AddrV2)
    } else if c == cmd_bytes(CmdId::GetBlocks) {
        Some(CmdId::GetBlocks)
    } else if c == cmd_bytes(CmdId::Inv) {
        Some(CmdId::Inv)
    } else if c == cmd_bytes(CmdId::GetHeaders) {
        Some(CmdId::GetHeaders)
    } else if c == cmd_bytes(CmdId::Headers) {
        Some(CmdId::Headers)
    } else if c == cmd_bytes(CmdId::GetData) {
        Some(CmdId::GetData)
    } else if c == cmd_bytes(CmdId::Block) {
        Some(CmdId::Block)
    } else if c == cmd_bytes(CmdId::Tx) {
        Some(CmdId::Tx)
    } else if c == cmd_bytes(CmdId::NotFound) {
        Some(CmdId::NotFound)
    } else if c == cmd_bytes(CmdId::Mempool) {
        Some(CmdId::Mempool)
    } else if c == cmd_bytes(CmdId::FilterLoad) {
        Some(CmdId::FilterLoad)
    } else if c == cmd_bytes(CmdId::FilterAdd) {
        Some(CmdId::FilterAdd)
    } else if c == cmd_bytes(CmdId::FilterClear) {
        Some(CmdId::FilterClear)
    } else {
        None
    }
}

/// Distinct commands have distinct padded byte fields.
pub proof fn lemma_cmd_bytes_distinct(a: CmdId, b: CmdId)
    requires
        a != b,
    ensures
        cmd_bytes(a) != cmd_bytes(b),
{
    if cmd_bytes(a) == cmd_bytes(b) {
        assert(cmd_bytes(a)[0] == cmd_bytes(b)[0]);
        assert(cmd_bytes(a)[1] == cmd_bytes(b)[1]);
        assert(cmd_bytes(a)[3] == cmd_bytes(b)[3]);
        assert(cmd_bytes(a)[4] == cmd_bytes(b)[4]);
        assert(cmd_bytes(a)[6] == cmd_bytes(b)[6]);
        assert(false);
    }
}

/// The command field written for a command names that command back.
pub proof fn lemma_command_id_of(id: CmdId)
    ensures
        command_id(cmd_bytes(id)) == Some(id),
{
    assert forall|j: CmdId| j != id implies cmd_bytes(j) != cmd_bytes(id) by {
        lemma_cmd_bytes_distinct(j, id);
    }
}

} // verus!
