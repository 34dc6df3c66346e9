//! Wire framing: a 4-byte unsigned little-endian length prefix followed by
//! exactly that many payload bytes.
//!
//! The transport in the owning application writes `frame_payload`'s output,
//! then reads 4 header bytes and passes them to `read_len`, then reads that
//! many payload bytes. A declared length over the defensive cap is treated as
//! a corrupt stream.

use vstd::bytes::{spec_u32_from_le_bytes, spec_u32_to_le_bytes, u32_from_le_bytes,
    u32_to_le_bytes, lemma_auto_spec_u32_to_from_le_bytes};
use vstd::prelude::*;
use crate::error::WayfireError;

verus! {

/// Largest payload length accepted in either direction (16 MiB): a larger
/// declared length is taken for stream corruption, not a real frame.
pub const MAX_FRAME_LEN: u32 = 16777216;

/// The frame that carries `payload`.
pub open spec fn spec_frame(payload: Seq<u8>) -> Seq<u8> {
    spec_u32_to_le_bytes(payload.len() as u32) + payload
}

/// Prefixes `payload` with its 4-byte little-endian length.
pub fn frame_payload(payload: &[u8]) -> (r: Result<Vec<u8>, WayfireError>)
    ensures
        payload@.len() <= MAX_FRAME_LEN ==> (r matches Ok(f) && f@ == spec_frame(payload@)),
        payload@.len() > MAX_FRAME_LEN ==> (r matches Err(e) && e is Encode),
{
    if payload.len() > MAX_FRAME_LEN as usize {
        return Err(WayfireError::Encode("request frame too long".to_owned()));
    }
    let n = payload.len();
    let mut out = u32_to_le_bytes(n as u32);
    let mut i: usize = 0;
    while i < payload.len()
        invariant
            i <= payload@.len(),
            payload@.len() == n <= MAX_FRAME_LEN,
            out@ == spec_u32_to_le_bytes(n as u32) + payload@.take(i as int),
        decreases payload@.len() - i,
    {
        out.push(payload[i]);
        assert(payload@.take(i + 1 as int) =~= payload@.take(i as int).push(payload@[i as int]));
        i = i + 1;
    }
    assert(payload@.take(n as int) =~= payload@);
    Ok(out)
}

/// Reads the length out of the 4 header bytes, refusing a length over the
/// defensive cap as stream corruption.
pub fn read_len(header: &[u8]) -> (r: Result<u32, WayfireError>)
    requires
        header@.len() == 4,
    ensures
        spec_u32_from_le_bytes(header@) <= MAX_FRAME_LEN ==> (r matches Ok(n) && n
            == spec_u32_from_le_bytes(header@)),
        spec_u32_from_le_bytes(header@) > MAX_FRAME_LEN ==> (r matches Err(e) && e is Io),
{
    let n = u32_from_le_bytes(header);
    if n > MAX_FRAME_LEN {
        Err(WayfireError::Io("declared frame length over the cap".to_owned()))
    } else {
        Ok(n)
    }
}

/// Splits one whole frame back into its payload. Succeeds exactly when the
/// buffer holds one frame: a 4-byte header whose declared length equals the
/// number of bytes that follow, within the cap.
pub fn deframe(buf: &[u8]) -> (r: Result<Vec<u8>, WayfireError>)
    ensures
        (buf@.len() >= 4 && spec_u32_from_le_bytes(buf@.take(4)) == buf@.len() - 4
            && buf@.len() - 4 <= MAX_FRAME_LEN) ==> (r matches Ok(p) && p@ == buf@.skip(4)),
        !(buf@.len() >= 4 && spec_u32_from_le_bytes(buf@.take(4)) == buf@.len() - 4
            && buf@.len() - 4 <= MAX_FRAME_LEN) ==> (r matches Err(e) && e is Io),
{
    if buf.len() < 4 {
        return Err(WayfireError::Io("short frame header".to_owned()));
    }
    let header = vstd::slice::slice_subrange(buf, 0, 4);
    assert(header@ =~= buf@.take(4));
    let n = u32_from_le_bytes(header);
    if n > MAX_FRAME_LEN || n as usize != buf.len() - 4 {
        return Err(WayfireError::Io("frame length does not match buffer".to_owned()));
    }
    let mut payload: Vec<u8> = Vec::new();
    let mut i: usize = 4;
    while i < buf.len()
        invariant
            4 <= i <= buf@.len(),
            payload@ == buf@.subrange(4, i as int),
        decreases buf@.len() - i,
    {
        payload.push(buf[i]);
        assert(buf@.subrange(4, i + 1 as int) =~= buf@.subrange(4, i as int).push(
            buf@[i as int],
        ));
        i = i + 1;
    }
    assert(buf@.subrange(4, buf@.len() as int) =~= buf@.skip(4));
    Ok(payload)
}

/// Framing round trip: deframing the frame of any payload within the cap
/// yields exactly the original payload, and the declared length equals the
/// payload length.
pub proof fn lemma_frame_round_trip(payload: Seq<u8>)
    requires
        payload.len() <= MAX_FRAME_LEN,
    ensures
        spec_frame(payload).len() == payload.len() + 4,
        spec_u32_from_le_bytes(spec_frame(payload).take(4)) == payload.len(),
        spec_frame(payload).skip(4) == payload,
{
    lemma_auto_spec_u32_to_from_le_bytes();
    assert(spec_frame(payload).take(4) =~= spec_u32_to_le_bytes(payload.len() as u32));
    assert(spec_frame(payload).skip(4) =~= payload);
}

} // verus!
