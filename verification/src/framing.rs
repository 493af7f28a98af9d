//! TCP framing: each message travels behind its length as a big-endian
//! `u16`.
use vstd::prelude::*;
use crate::wire::{be16_bytes, be16_value, write_u16, ProtocolError};

verus! {

/// The frame that carries `payload`: its length in two bytes, then the
/// payload. A payload longer than 65535 bytes cannot be framed.
pub fn frame_payload(payload: &[u8]) -> (r: Result<Vec<u8>, ProtocolError>)
    ensures
        payload@.len() <= 0xFFFF ==> (r matches Ok(v) && v@ == be16_bytes(payload@.len() as u16)
            + payload@),
        payload@.len() > 0xFFFF ==> r == Err::<Vec<u8>, ProtocolError>(
            ProtocolError::MessageTooLarge,
        ),
{
    if payload.len() > 0xFFFF {
        return Err(ProtocolError::MessageTooLarge);
    }
    let mut out: Vec<u8> = Vec::new();
    write_u16(&mut out, payload.len() as u16);
    let ghost head = out@;
    let mut i: usize = 0;
    while i < payload.len()
        invariant
            i <= payload@.len(),
            out@ == head + payload@.take(i as int),
        decreases payload.len() - i,
    {
        out.push(payload[i]);
        i = i + 1;
        assert(payload@.take(i as int) == payload@.take(i - 1).push(payload@[i - 1]));
    }
    assert(payload@.take(payload.len() as int) =~= payload@);
    Ok(out)
}

/// The payload length announced by the two bytes in front of a frame.
pub fn frame_length(hi: u8, lo: u8) -> (r: usize)
    ensures
        r == be16_value(hi, lo),
{
    (hi as usize) * 256 + (lo as usize)
}

} // verus!
