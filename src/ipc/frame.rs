//! Framing of messages on a byte stream: a 4-byte little-endian length, then
//! that many bytes of payload.

use vstd::prelude::*;
use vstd::bytes::{
    spec_u32_to_le_bytes, spec_u32_from_le_bytes, u32_to_le_bytes, u32_from_le_bytes,
    lemma_auto_spec_u32_to_from_le_bytes,
};

verus! {

/// The largest payload a frame may carry (64 MiB): a length field above it is
/// taken as garbled rather than allocated.
pub const MAX_FRAME_LEN: u32 = 0x0400_0000;

/// Why bytes could not be framed or unframed.
#[derive(Debug, Clone, Copy, PartialEq, Eq)]
pub enum FrameError {
    /// The payload, or the length a header announces, exceeds `MAX_FRAME_LEN`.
    TooLarge,
    /// Fewer bytes than the header announces, or than a header takes.
    Truncated,
}

pub open spec fn frame_bytes(payload: Seq<u8>) -> Seq<u8> {
    spec_u32_to_le_bytes(payload.len() as u32) + payload
}

/// The payload of the frame at the front of `s`, and the frame's length.
pub open spec fn unframe_spec(s: Seq<u8>) -> Result<(Seq<u8>, nat), FrameError> {
    if s.len() < 4 {
        Err(FrameError::Truncated)
    } else {
        let n = spec_u32_from_le_bytes(s.subrange(0, 4));
        if n > MAX_FRAME_LEN {
            Err(FrameError::TooLarge)
        } else if s.len() < 4 + n {
            Err(FrameError::Truncated)
        } else {
            Ok((s.subrange(4, 4 + n), (4 + n) as nat))
        }
    }
}

/// Puts `payload` in a frame.
pub fn frame(payload: &Vec<u8>) -> (r: Result<Vec<u8>, FrameError>)
    ensures
        payload@.len() <= MAX_FRAME_LEN ==> (r matches Ok(v) && v@ == frame_bytes(payload@)),
        payload@.len() > MAX_FRAME_LEN ==> r == Err::<Vec<u8>, FrameError>(FrameError::TooLarge),
{
    if payload.len() > MAX_FRAME_LEN as usize {
        return Err(FrameError::TooLarge);
    }
    let mut out = u32_to_le_bytes(payload.len() as u32);
    out.extend_from_slice(payload.as_slice());
    Ok(out)
}

/// The payload length that a 4-byte frame header announces.
pub fn frame_length(header: &[u8]) -> (r: Result<usize, FrameError>)
    requires
        header@.len() == 4,
    ensures
        spec_u32_from_le_bytes(header@) <= MAX_FRAME_LEN ==> r == Ok::<usize, FrameError>(
            spec_u32_from_le_bytes(header@) as usize,
        ),
        spec_u32_from_le_bytes(header@) > MAX_FRAME_LEN ==> r == Err::<usize, FrameError>(
            FrameError::TooLarge,
        ),
{
    let n = u32_from_le_bytes(header);
    if n > MAX_FRAME_LEN {
        Err(FrameError::TooLarge)
    } else {
        Ok(n as usize)
    }
}

/// Takes the frame at the front of `bytes` apart: its payload, and how many bytes
/// the frame took.
pub fn unframe(bytes: &[u8]) -> (r: Result<(Vec<u8>, usize), FrameError>)
    ensures
        match unframe_spec(bytes@) {
            Ok((p, n)) => r matches Ok((v, m)) && v@ == p && m == n,
            Err(e) => r == Err::<(Vec<u8>, usize), FrameError>(e),
        },
{
    if bytes.len() < 4 {
        return Err(FrameError::Truncated);
    }
    let header = vstd::slice::slice_subrange(bytes, 0, 4);
    let n = match frame_length(header) {
        Ok(n) => n,
        Err(e) => return Err(e),
    };
    if bytes.len() - 4 < n {
        return Err(FrameError::Truncated);
    }
    let payload = vstd::slice::slice_to_vec(vstd::slice::slice_subrange(bytes, 4, 4 + n));
    Ok((payload, 4 + n))
}

/// A framed payload is taken back out whole, whatever follows it.
pub proof fn lemma_frame_round_trip(payload: Seq<u8>, rest: Seq<u8>)
    requires
        payload.len() <= MAX_FRAME_LEN,
    ensures
        unframe_spec(frame_bytes(payload) + rest) == Ok::<(Seq<u8>, nat), FrameError>(
            (payload, frame_bytes(payload).len()),
        ),
        frame_bytes(payload).len() == payload.len() + 4,
{
    lemma_auto_spec_u32_to_from_le_bytes();
    let s = frame_bytes(payload) + rest;
    let h = spec_u32_to_le_bytes(payload.len() as u32);
    assert(s.subrange(0, 4) =~= h);
    assert(s.subrange(4, 4 + payload.len() as int) =~= payload);
}

} // verus!
