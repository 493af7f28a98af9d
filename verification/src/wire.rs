//! Byte-level encoding of the protocol: big-endian integers and strings
//! prefixed by a one-byte length, read from a buffer at a cursor.
use vstd::prelude::*;
use vstd::string::*;
use vstd::utf8::*;
use vstd::slice::slice_subrange;

verus! {

/// Why a buffer could not be read as a protocol message.
#[derive(Debug, Clone, Copy, PartialEq, Eq, Structural)]
pub enum ProtocolError {
    /// Fewer than the two header bytes.
    MessageTooShort,
    /// The first byte names no message type (TCP message).
    UnknownMessageType,
    /// The first byte names no message type (UDP packet).
    UnknownUdpMessageType,
    /// The second byte is not the protocol version.
    UnsupportedProtocolVersion,
    /// A fixed-size field runs past the end of the buffer.
    BufferUnderflow,
    /// A string runs past the end of the buffer.
    StringOverflow,
    /// A string's bytes are not UTF-8.
    InvalidUtf8,
    InvalidDirection,
    /// The phase byte of a discovery response names no phase.
    InvalidGamePhase,
    /// The phase byte of a lobby state names no phase.
    InvalidLobbyState,
    InvalidFlagStatus,
    InvalidJoinRejectReason,
    InvalidErrorCode,
    /// A server-to-client message handed to the client-message decoder.
    UnexpectedClientMessage,
    /// A client-to-server message handed to the server-message decoder.
    UnexpectedServerMessage,
    /// A payload too long for the two-byte frame length.
    MessageTooLarge,
}

// ---------------------------------------------------------------- encoding

/// Big-endian bytes of a `u16`.
#[verifier::opaque]
pub open spec fn be16_bytes(v: u16) -> Seq<u8> {
    seq![(v / 256) as u8, (v % 256) as u8]
}

/// Big-endian bytes of a `u32`.
#[verifier::opaque]
pub open spec fn be32_bytes(v: u32) -> Seq<u8> {
    seq![
        (v / 0x100_0000) as u8,
        ((v / 0x1_0000) % 256) as u8,
        ((v / 256) % 256) as u8,
        (v % 256) as u8,
    ]
}

/// Big-endian bytes of an `i32` (two's complement).
pub open spec fn i32_bytes(v: i32) -> Seq<u8> {
    be32_bytes(v as u32)
}

/// How many bytes of a string's UTF-8 encoding go on the wire: all of them,
/// cut at 255.
pub open spec fn wire_string_len(s: Seq<char>) -> nat {
    let n = encode_utf8(s).len();
    if n <= 255 {
        n
    } else {
        255
    }
}

/// A string on the wire: one length byte, then that many bytes of its UTF-8
/// encoding (longer encodings are cut at 255 bytes).
#[verifier::opaque]
pub open spec fn string_bytes(s: Seq<char>) -> Seq<u8> {
    seq![wire_string_len(s) as u8] + encode_utf8(s).take(wire_string_len(s) as int)
}

/// A string whose encoding is sent whole.
pub open spec fn fits_wire(s: Seq<char>) -> bool {
    encode_utf8(s).len() <= 255
}

/// The byte for a boolean.
pub open spec fn bool_byte(b: bool) -> u8 {
    if b {
        1
    } else {
        0
    }
}

pub broadcast proof fn lemma_be16_bytes_len(v: u16)
    ensures
        #[trigger] be16_bytes(v).len() == 2,
{
    reveal(be16_bytes);
}

pub broadcast proof fn lemma_be32_bytes_len(v: u32)
    ensures
        #[trigger] be32_bytes(v).len() == 4,
{
    reveal(be32_bytes);
}

pub broadcast proof fn lemma_string_bytes_len(s: Seq<char>)
    ensures
        #[trigger] string_bytes(s).len() == 1 + wire_string_len(s),
{
    reveal(string_bytes);
}

pub broadcast group group_wire_lengths {
    lemma_be16_bytes_len,
    lemma_be32_bytes_len,
    lemma_string_bytes_len,
}

// ---------------------------------------------------------------- decoding

/// The `u16` whose big-endian bytes are `hi`, `lo`.
pub open spec fn be16_value(hi: u8, lo: u8) -> u16 {
    (hi * 256 + lo) as u16
}

/// The `u32` whose big-endian bytes are `a`, `b`, `c`, `d`.
pub open spec fn be32_value(a: u8, b: u8, c: u8, d: u8) -> u32 {
    (a * 0x100_0000 + b * 0x1_0000 + c * 256 + d) as u32
}

/// Reading one byte at `pos`: the byte and the position after it.
pub open spec fn read_u8_at(b: Seq<u8>, pos: int) -> Result<(u8, int), ProtocolError> {
    if 0 <= pos < b.len() {
        Ok((b[pos], pos + 1))
    } else {
        Err(ProtocolError::BufferUnderflow)
    }
}

#[verifier::opaque]
pub open spec fn read_u16_at(b: Seq<u8>, pos: int) -> Result<(u16, int), ProtocolError> {
    if 0 <= pos && pos + 2 <= b.len() {
        Ok((be16_value(b[pos], b[pos + 1]), pos + 2))
    } else {
        Err(ProtocolError::BufferUnderflow)
    }
}

#[verifier::opaque]
pub open spec fn read_u32_at(b: Seq<u8>, pos: int) -> Result<(u32, int), ProtocolError> {
    if 0 <= pos && pos + 4 <= b.len() {
        Ok((be32_value(b[pos], b[pos + 1], b[pos + 2], b[pos + 3]), pos + 4))
    } else {
        Err(ProtocolError::BufferUnderflow)
    }
}

pub open spec fn read_i32_at(b: Seq<u8>, pos: int) -> Result<(i32, int), ProtocolError> {
    match read_u32_at(b, pos) {
        Ok((v, next)) => Ok((v as i32, next)),
        Err(e) => Err(e),
    }
}

/// Reading a string at `pos`: a length byte, then that many bytes, which
/// must be UTF-8.
#[verifier::opaque]
pub open spec fn read_string_at(b: Seq<u8>, pos: int) -> Result<(Seq<char>, int), ProtocolError> {
    match read_u8_at(b, pos) {
        Err(e) => Err(e),
        Ok((len, start)) => {
            if start + len > b.len() {
                Err(ProtocolError::StringOverflow)
            } else if valid_utf8(b.subrange(start, start + len)) {
                Ok((decode_utf8(b.subrange(start, start + len)), start + len))
            } else {
                Err(ProtocolError::InvalidUtf8)
            }
        },
    }
}

/// Where the cursor stands after reading a string at `pos`, whether the
/// reading succeeds or not: unmoved when there is no length byte, just past
/// the length byte when the string runs past the end, past the string
/// otherwise (also when its bytes are not UTF-8).
pub open spec fn string_cursor_after(b: Seq<u8>, pos: int) -> int {
    if !(0 <= pos < b.len()) {
        pos
    } else if pos + 1 + b[pos] > b.len() {
        pos + 1
    } else {
        pos + 1 + b[pos]
    }
}

/// A reading `r` with the cursor left at `cursor` agrees with the spec
/// reading `s`: the same value and the position after it, or the same error.
pub open spec fn read_agrees<T>(
    r: Result<T, ProtocolError>,
    cursor: usize,
    s: Result<(T, int), ProtocolError>,
) -> bool {
    match s {
        Ok((v, next)) => r == Ok::<T, ProtocolError>(v) && cursor == next,
        Err(e) => r == Err::<T, ProtocolError>(e),
    }
}

// ---------------------------------------------------------------- trusted

/// Calls `std::str::from_utf8`. Claimed: it gives back a string exactly when
/// the bytes are UTF-8, and that string's UTF-8 encoding is those bytes.
#[verifier::external_body]
fn str_from_utf8(bytes: &[u8]) -> (r: Option<&str>)
    ensures
        match r {
            Some(s) => valid_utf8(bytes@) && s.spec_bytes() == bytes@,
            None => !valid_utf8(bytes@),
        },
{
    match std::str::from_utf8(bytes) {
        Ok(s) => Some(s),
        Err(_) => None,
    }
}

// ---------------------------------------------------------------- readers

pub fn read_u8_from(buf: &[u8], cursor: &mut usize) -> (r: Result<u8, ProtocolError>)
    ensures
        read_agrees(r, *final(cursor), read_u8_at(buf@, *old(cursor) as int)),
        r is Err ==> *final(cursor) == *old(cursor),
{
    if *cursor >= buf.len() {
        return Err(ProtocolError::BufferUnderflow);
    }
    let value = buf[*cursor];
    *cursor = *cursor + 1;
    Ok(value)
}

pub fn read_u16_from(buf: &[u8], cursor: &mut usize) -> (r: Result<u16, ProtocolError>)
    ensures
        read_agrees(r, *final(cursor), read_u16_at(buf@, *old(cursor) as int)),
        r is Err ==> *final(cursor) == *old(cursor),
{
    reveal(read_u16_at);
    if buf.len() < 2 || *cursor > buf.len() - 2 {
        return Err(ProtocolError::BufferUnderflow);
    }
    let hi = buf[*cursor];
    let lo = buf[*cursor + 1];
    let value = (hi as u16) * 256 + (lo as u16);
    *cursor = *cursor + 2;
    Ok(value)
}

pub fn read_u32_from(buf: &[u8], cursor: &mut usize) -> (r: Result<u32, ProtocolError>)
    ensures
        read_agrees(r, *final(cursor), read_u32_at(buf@, *old(cursor) as int)),
        r is Err ==> *final(cursor) == *old(cursor),
{
    reveal(read_u32_at);
    if buf.len() < 4 || *cursor > buf.len() - 4 {
        return Err(ProtocolError::BufferUnderflow);
    }
    let a = buf[*cursor];
    let b = buf[*cursor + 1];
    let c = buf[*cursor + 2];
    let d = buf[*cursor + 3];
    let value = (a as u32) * 0x100_0000 + (b as u32) * 0x1_0000 + (c as u32) * 256 + (d as u32);
    *cursor = *cursor + 4;
    Ok(value)
}

pub fn read_i32_from(buf: &[u8], cursor: &mut usize) -> (r: Result<i32, ProtocolError>)
    ensures
        read_agrees(r, *final(cursor), read_i32_at(buf@, *old(cursor) as int)),
        r is Err ==> *final(cursor) == *old(cursor),
{
    match read_u32_from(buf, cursor) {
        Ok(v) => Ok(v as i32),
        Err(e) => Err(e),
    }
}

pub fn read_string_from(buf: &[u8], cursor: &mut usize) -> (r: Result<String, ProtocolError>)
    ensures
        match read_string_at(buf@, *old(cursor) as int) {
            Ok((s, next)) => r matches Ok(t) && t@ == s && *final(cursor) == next,
            Err(e) => r == Err::<String, ProtocolError>(e),
        },
        *final(cursor) == string_cursor_after(buf@, *old(cursor) as int),
{
    reveal(read_string_at);
    let len = match read_u8_from(buf, cursor) {
        Ok(v) => v as usize,
        Err(e) => return Err(e),
    };
    if *cursor > buf.len() || len > buf.len() - *cursor {
        return Err(ProtocolError::StringOverflow);
    }
    let start = *cursor;
    let raw = slice_subrange(buf, start, start + len);
    *cursor = start + len;
    match str_from_utf8(raw) {
        Some(s) => {
            proof {
                encode_utf8_decode_utf8(s@);
            }
            Ok(s.to_owned())
        },
        None => Err(ProtocolError::InvalidUtf8),
    }
}

// ---------------------------------------------------------------- writers

pub fn write_u16(out: &mut Vec<u8>, value: u16)
    ensures
        final(out)@ == old(out)@ + be16_bytes(value),
{
    reveal(be16_bytes);
    out.push((value / 256) as u8);
    out.push((value % 256) as u8);
}

pub fn write_u32(out: &mut Vec<u8>, value: u32)
    ensures
        final(out)@ == old(out)@ + be32_bytes(value),
{
    reveal(be32_bytes);
    out.push((value / 0x100_0000) as u8);
    out.push(((value / 0x1_0000) % 256) as u8);
    out.push(((value / 256) % 256) as u8);
    out.push((value % 256) as u8);
}

pub fn write_i32(out: &mut Vec<u8>, value: i32)
    ensures
        final(out)@ == old(out)@ + i32_bytes(value),
{
    write_u32(out, value as u32);
}

/// Appends a string: its byte length (at most 255) and its UTF-8 bytes, cut
/// at 255.
pub fn write_string(out: &mut Vec<u8>, value: &str)
    ensures
        final(out)@ == old(out)@ + string_bytes(value@),
{
    reveal(string_bytes);
    let bytes = value.as_bytes();
    let n: usize = if bytes.len() <= 255 {
        bytes.len()
    } else {
        255
    };
    let ghost start = out@;
    out.push(n as u8);
    let mut i: usize = 0;
    while i < n
        invariant
            n <= bytes@.len(),
            bytes@ == encode_utf8(value@),
            n == wire_string_len(value@),
            i <= n,
            out@ == start + seq![n as u8] + bytes@.take(i as int),
        decreases n - i,
    {
        out.push(bytes[i]);
        i = i + 1;
        assert(bytes@.take(i as int) == bytes@.take(i - 1).push(bytes@[i - 1]));
    }
}

/// Appends a boolean as one byte, 1 or 0.
pub fn write_bool(out: &mut Vec<u8>, value: bool)
    ensures
        final(out)@ == old(out)@.push(bool_byte(value)),
{
    if value {
        out.push(1);
    } else {
        out.push(0);
    }
}

} // verus!
