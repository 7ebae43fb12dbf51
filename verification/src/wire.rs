//! Byte-level building blocks of the wire format: little-endian integers,
//! big-endian ports, Bitcoin-style variable-length integers, and cursor-based
//! readers over a byte buffer.
//!
//! Every reader has a spec-level twin (`sp_*`) that defines exactly which
//! bytes parse and to what; the executable readers are proved to return
//! precisely what the twin says.

use vstd::prelude::*;
use vstd::bytes::*;
use vstd::slice::slice_subrange;

verus! {

/// Why a byte sequence was rejected during decoding.
#[derive(Copy, Clone, Debug, Eq, PartialEq, Structural)]
pub enum DecodeError {
    /// Fewer bytes than the smallest form the field can take.
    Truncated,
    /// The frame does not start with the network magic.
    BadMagic,
    /// A declared length disagrees with the bytes that are actually there.
    LengthMismatch,
    /// The declared payload length exceeds the protocol maximum.
    OversizedPayload,
    /// The frame checksum does not match the payload.
    BadChecksum,
    /// The 12-byte command names no known message.
    UnknownCommand,
    /// A variable-length integer uses a longer form than its value needs.
    NonCanonicalCount,
    /// A list count or a field size exceeds its protocol maximum.
    CountOverMax,
    /// An inventory entry carries an unknown object kind.
    InvalidInventoryKind,
    /// A reject message carries an unknown reason code.
    InvalidRejectCode,
    /// A length-prefixed text field is not valid UTF-8.
    InvalidText,
    /// A version timestamp lies outside the supported calendar range.
    TimestampOutOfRange,
    /// The relay flag byte is neither 0 nor 1.
    InvalidRelayFlag,
    /// An address entry declares a length its address type does not allow.
    InvalidAddressLength,
}

/// Why a message could not be encoded: it breaks an invariant of its variant.
#[derive(Copy, Clone, Debug, Eq, PartialEq, Structural)]
pub enum EncodeError {
    /// The message violates a well-formedness bound of its variant.
    InvalidMessage,
}

/// Big-endian bytes of a 16-bit integer (used for ports).
pub open spec fn spec_u16_be(x: u16) -> Seq<u8> {
    seq![(x >> 8) as u8, x as u8]
}

/// The two big-endian bytes determine the 16-bit value.
pub open spec fn spec_u16_from_be(s: Seq<u8>) -> u16
    recommends
        s.len() == 2,
{
    ((s[0] as u16) << 8) | (s[1] as u16)
}

pub proof fn lemma_u16_be_round_trip(x: u16)
    ensures
        spec_u16_be(x).len() == 2,
        spec_u16_from_be(spec_u16_be(x)) == x,
{
    assert((((x >> 8) as u8) as u16) << 8 | ((x as u8) as u16) == x) by (bit_vector);
}

/// Canonical Bitcoin-style variable-length integer encoding.
pub open spec fn spec_varint(n: u64) -> Seq<u8> {
    if n < 0xFD {
        seq![n as u8]
    } else if n <= 0xFFFF {
        seq![0xFDu8] + spec_u16_to_le_bytes(n as u16)
    } else if n <= 0xFFFF_FFFF {
        seq![0xFEu8] + spec_u32_to_le_bytes(n as u32)
    } else {
        seq![0xFFu8] + spec_u64_to_le_bytes(n)
    }
}

/// Parse a canonical variable-length integer at `pos`; the successful result
/// carries the value and the position just past it.
pub open spec fn sp_varint_at(b: Seq<u8>, pos: int) -> Result<(u64, int), DecodeError> {
    if pos >= b.len() {
        Err(DecodeError::Truncated)
    } else {
        let first = b[pos];
        if first < 0xFD {
            Ok((first as u64, pos + 1))
        } else if first == 0xFD {
            if pos + 3 > b.len() {
                Err(DecodeError::Truncated)
            } else {
                let v = spec_u16_from_le_bytes(b.subrange(pos + 1, pos + 3));
                if v >= 0xFD {
                    Ok((v as u64, pos + 3))
                } else {
                    Err(DecodeError::NonCanonicalCount)
                }
            }
        } else if first == 0xFE {
            if pos + 5 > b.len() {
                Err(DecodeError::Truncated)
            } else {
                let v = spec_u32_from_le_bytes(b.subrange(pos + 1, pos + 5));
                if v > 0xFFFF {
                    Ok((v as u64, pos + 5))
                } else {
                    Err(DecodeError::NonCanonicalCount)
                }
            }
        } else {
            if pos + 9 > b.len() {
                Err(DecodeError::Truncated)
            } else {
                let v = spec_u64_from_le_bytes(b.subrange(pos + 1, pos + 9));
                if v > 0xFFFF_FFFF {
                    Ok((v, pos + 9))
                } else {
                    Err(DecodeError::NonCanonicalCount)
                }
            }
        }
    }
}

/// A canonical varint encoding embedded in a buffer parses back to its value.
pub proof fn lemma_sp_varint_of_encoding(b: Seq<u8>, pos: int, n: u64)
    requires
        0 <= pos,
        pos + spec_varint(n).len() <= b.len(),
        b.subrange(pos, pos + spec_varint(n).len() as int) == spec_varint(n),
    ensures
        sp_varint_at(b, pos) == Ok::<(u64, int), DecodeError>((n, pos + spec_varint(n).len())),
{
    let e = spec_varint(n);
    assert(b[pos] == b.subrange(pos, pos + e.len() as int)[0]);
    if n < 0xFD {
        assert(b[pos] == n as u8);
    } else if n <= 0xFFFF {
        lemma_auto_spec_u16_to_from_le_bytes();
        assert(e.len() == 3);
        assert(b[pos] == 0xFD);
        assert(b.subrange(pos + 1, pos + 3) =~= spec_u16_to_le_bytes(n as u16)) by {
            assert forall|i: int| 0 <= i < 2 implies #[trigger] b.subrange(pos + 1, pos + 3)[i]
                == spec_u16_to_le_bytes(n as u16)[i] by {
                assert(b.subrange(pos + 1, pos + 3)[i] == b.subrange(pos, pos + 3)[i + 1]);
            }
        }
        assert(spec_u16_from_le_bytes(b.subrange(pos + 1, pos + 3)) == n as u16);
    } else if n <= 0xFFFF_FFFF {
        lemma_auto_spec_u32_to_from_le_bytes();
        assert(e.len() == 5);
        assert(b[pos] == 0xFE);
        assert(b.subrange(pos + 1, pos + 5) =~= spec_u32_to_le_bytes(n as u32)) by {
            assert forall|i: int| 0 <= i < 4 implies #[trigger] b.subrange(pos + 1, pos + 5)[i]
                == spec_u32_to_le_bytes(n as u32)[i] by {
                assert(b.subrange(pos + 1, pos + 5)[i] == b.subrange(pos, pos + 5)[i + 1]);
            }
        }
        assert(spec_u32_from_le_bytes(b.subrange(pos + 1, pos + 5)) == n as u32);
    } else {
        lemma_auto_spec_u64_to_from_le_bytes();
        assert(e.len() == 9);
        assert(b[pos] == 0xFF);
        assert(b.subrange(pos + 1, pos + 9) =~= spec_u64_to_le_bytes(n)) by {
            assert forall|i: int| 0 <= i < 8 implies #[trigger] b.subrange(pos + 1, pos + 9)[i]
                == spec_u64_to_le_bytes(n)[i] by {
                assert(b.subrange(pos + 1, pos + 9)[i] == b.subrange(pos, pos + 9)[i + 1]);
            }
        }
        assert(spec_u64_from_le_bytes(b.subrange(pos + 1, pos + 9)) == n);
    }
}

/// Read one byte.
pub fn read_u8(b: &Vec<u8>, pos: usize) -> (r: Result<(u8, usize), DecodeError>)
    requires
        pos <= b@.len(),
    ensures
        pos < b@.len() ==> r == Ok::<(u8, usize), DecodeError>((b@[pos as int], (pos + 1) as usize)),
        pos == b@.len() ==> r == Err::<(u8, usize), DecodeError>(DecodeError::Truncated),
{
    if pos < b.len() {
        Ok((b[pos], pos + 1))
    } else {
        Err(DecodeError::Truncated)
    }
}

/// Read a 16-bit big-endian integer.
pub fn read_u16_be(b: &Vec<u8>, pos: usize) -> (r: Result<(u16, usize), DecodeError>)
    requires
        pos <= b@.len(),
    ensures
        pos + 2 <= b@.len() ==> r == Ok::<(u16, usize), DecodeError>((
            spec_u16_from_be(b@.subrange(pos as int, pos + 2)),
            (pos + 2) as usize,
        )),
        pos + 2 > b@.len() ==> r == Err::<(u16, usize), DecodeError>(DecodeError::Truncated),
{
    if b.len() - pos >= 2 {
        let hi = b[pos];
        let lo = b[pos + 1];
        let v: u16 = ((hi as u16) << 8) | (lo as u16);
        Ok((v, pos + 2))
    } else {
        Err(DecodeError::Truncated)
    }
}

/// Read a 32-bit little-endian integer.
pub fn read_u32_le(b: &Vec<u8>, pos: usize) -> (r: Result<(u32, usize), DecodeError>)
    requires
        pos <= b@.len(),
    ensures
        pos + 4 <= b@.len() ==> r == Ok::<(u32, usize), DecodeError>((
            spec_u32_from_le_bytes(b@.subrange(pos as int, pos + 4)),
            (pos + 4) as usize,
        )),
        pos + 4 > b@.len() ==> r == Err::<(u32, usize), DecodeError>(DecodeError::Truncated),
{
    if b.len() - pos >= 4 {
        let s = slice_subrange(b.as_slice(), pos, pos + 4);
        Ok((u32_from_le_bytes(s), pos + 4))
    } else {
        Err(DecodeError::Truncated)
    }
}

/// Read a 64-bit little-endian integer.
pub fn read_u64_le(b: &Vec<u8>, pos: usize) -> (r: Result<(u64, usize), DecodeError>)
    requires
        pos <= b@.len(),
    ensures
        pos + 8 <= b@.len() ==> r == Ok::<(u64, usize), DecodeError>((
            spec_u64_from_le_bytes(b@.subrange(pos as int, pos + 8)),
            (pos + 8) as usize,
        )),
        pos + 8 > b@.len() ==> r == Err::<(u64, usize), DecodeError>(DecodeError::Truncated),
{
    if b.len() - pos >= 8 {
        let s = slice_subrange(b.as_slice(), pos, pos + 8);
        Ok((u64_from_le_bytes(s), pos + 8))
    } else {
        Err(DecodeError::Truncated)
    }
}

/// Copy `n` bytes out of the buffer.
pub fn read_bytes(b: &Vec<u8>, pos: usize, n: usize) -> (r: Result<(Vec<u8>, usize), DecodeError>)
    requires
        pos <= b@.len(),
    ensures
        pos + n <= b@.len() ==> (r matches Ok(p) && p.0@ == b@.subrange(pos as int, pos + n)
            && p.1 == pos + n),
        pos + n > b@.len() ==> r == Err::<(Vec<u8>, usize), DecodeError>(DecodeError::Truncated),
{
    if n <= b.len() - pos {
        let s = slice_subrange(b.as_slice(), pos, pos + n);
        let mut out: Vec<u8> = Vec::new();
        let mut i: usize = 0;
        while i < n
            invariant
                i <= n,
                pos + n <= b@.len(),
                s@ == b@.subrange(pos as int, pos + n),
                out@ == b@.subrange(pos as int, pos + i),
            decreases n - i,
        {
            out.push(s[i]);
            assert(out@ =~= b@.subrange(pos as int, pos + i + 1));
            i = i + 1;
        }
        Ok((out, pos + n))
    } else {
        Err(DecodeError::Truncated)
    }
}

/// Read a canonical variable-length integer.
pub fn read_varint(b: &Vec<u8>, pos: usize) -> (r: Result<(u64, usize), DecodeError>)
    requires
        pos <= b@.len(),
    ensures
        (r matches Ok(p) && sp_varint_at(b@, pos as int) == Ok::<(u64, int), DecodeError>((
            p.0,
            p.1 as int,
        )) && p.1 <= b@.len()) || (r matches Err(e) && sp_varint_at(b@, pos as int)
            == Err::<(u64, int), DecodeError>(e)),
{
    if pos >= b.len() {
        return Err(DecodeError::Truncated);
    }
    let first = b[pos];
    if first < 0xFD {
        Ok((first as u64, pos + 1))
    } else if first == 0xFD {
        if b.len() - pos >= 3 {
            let s = slice_subrange(b.as_slice(), pos + 1, pos + 3);
            let v = u16_from_le_bytes(s);
            if v >= 0xFD {
                Ok((v as u64, pos + 3))
            } else {
                Err(DecodeError::NonCanonicalCount)
            }
        } else {
            Err(DecodeError::Truncated)
        }
    } else if first == 0xFE {
        if b.len() - pos >= 5 {
            let s = slice_subrange(b.as_slice(), pos + 1, pos + 5);
            let v = u32_from_le_bytes(s);
            if v > 0xFFFF {
                Ok((v as u64, pos + 5))
            } else {
                Err(DecodeError::NonCanonicalCount)
            }
        } else {
            Err(DecodeError::Truncated)
        }
    } else {
        if b.len() - pos >= 9 {
            let s = slice_subrange(b.as_slice(), pos + 1, pos + 9);
            let v = u64_from_le_bytes(s);
            if v > 0xFFFF_FFFF {
                Ok((v, pos + 9))
            } else {
                Err(DecodeError::NonCanonicalCount)
            }
        } else {
            Err(DecodeError::Truncated)
        }
    }
}

/// Append a 16-bit big-endian integer.
pub fn push_u16_be(out: &mut Vec<u8>, x: u16)
    ensures
        final(out)@ == old(out)@ + spec_u16_be(x),
{
    out.push((x >> 8) as u8);
    out.push(x as u8);
    assert(out@ =~= old(out)@ + spec_u16_be(x));
}

/// Append a 32-bit little-endian integer.
pub fn push_u32_le(out: &mut Vec<u8>, x: u32)
    ensures
        final(out)@ == old(out)@ + spec_u32_to_le_bytes(x),
{
    let mut tmp = u32_to_le_bytes(x);
    out.append(&mut tmp);
}

/// Append a 64-bit little-endian integer.
pub fn push_u64_le(out: &mut Vec<u8>, x: u64)
    ensures
        final(out)@ == old(out)@ + spec_u64_to_le_bytes(x),
{
    let mut tmp = u64_to_le_bytes(x);
    out.append(&mut tmp);
}

/// Append a copy of a byte vector.
pub fn push_bytes(out: &mut Vec<u8>, data: &Vec<u8>)
    ensures
        final(out)@ == old(out)@ + data@,
{
    let mut i: usize = 0;
    while i < data.len()
        invariant
            i <= data@.len(),
            out@ == old(out)@ + data@.subrange(0, i as int),
        decreases data@.len() - i,
    {
        out.push(data[i]);
        assert(out@ =~= old(out)@ + data@.subrange(0, i + 1));
        i = i + 1;
    }
    assert(out@ =~= old(out)@ + data@);
}

/// Append a canonical variable-length integer.
pub fn push_varint(out: &mut Vec<u8>, n: u64)
    ensures
        final(out)@ == old(out)@ + spec_varint(n),
{
    if n < 0xFD {
        out.push(n as u8);
        assert(out@ =~= old(out)@ + spec_varint(n));
    } else if n <= 0xFFFF {
        out.push(0xFD);
        let mut tmp = u16_to_le_bytes(n as u16);
        out.append(&mut tmp);
        assert(out@ =~= old(out)@ + spec_varint(n));
    } else if n <= 0xFFFF_FFFF {
        out.push(0xFE);
        let mut tmp = u32_to_le_bytes(n as u32);
        out.append(&mut tmp);
        assert(out@ =~= old(out)@ + spec_varint(n));
    } else {
        out.push(0xFF);
        let mut tmp = u64_to_le_bytes(n);
        out.append(&mut tmp);
        assert(out@ =~= old(out)@ + spec_varint(n));
    }
}

/// Do the `n` bytes of `pat` stand at `pos` in `b`?
pub fn bytes_match(b: &Vec<u8>, pos: usize, pat: &Vec<u8>) -> (r: bool)
    requires
        pos + pat@.len() <= b@.len(),
    ensures
        r == (b@.subrange(pos as int, pos + pat@.len()) == pat@),
{
    let bl: usize = b.len();
    let mut i: usize = 0;
    while i < pat.len()
        invariant
            i <= pat@.len(),
            pos + pat@.len() <= b@.len(),
            b@.len() == bl,
            forall|j: int| 0 <= j < i ==> b@[pos + j] == pat@[j],
        decreases pat@.len() - i,
    {
        if b[pos + i] != pat[i] {
            assert(b@.subrange(pos as int, pos + pat@.len())[i as int] != pat@[i as int]);
            return false;
        }
        i = i + 1;
    }
    assert(b@.subrange(pos as int, pos + pat@.len()) =~= pat@);
    true
}

} // verus!
