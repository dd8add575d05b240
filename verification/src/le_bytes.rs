//! Appending raw little-endian integer bytes to the output buffer.
//!
//! These are the only places the crate touches `byteorder`; each function's
//! contract states the bytes that the call appends, in terms of vstd's
//! little-endian byte models.

use byteorder::{LittleEndian, WriteBytesExt};
use vstd::bytes::{spec_u32_to_le_bytes, spec_u64_to_le_bytes};
use vstd::prelude::*;

verus! {

/// Relies on byteorder's `WriteBytesExt::write_u8`, which appends the single
/// byte through `io::Write`; writing to a `Vec<u8>` always succeeds.
#[verifier::external_body]
pub(crate) fn push_u8(buff: &mut Vec<u8>, v: u8)
    ensures
        final(buff)@ == old(buff)@ + seq![v],
{
    let _ = buff.write_u8(v);
}

/// Relies on byteorder's `WriteBytesExt::write_u32` with `LittleEndian`, which
/// appends `v.to_le_bytes()` through `io::Write`; writing to a `Vec<u8>`
/// always succeeds.
#[verifier::external_body]
pub(crate) fn push_u32_le(buff: &mut Vec<u8>, v: u32)
    ensures
        final(buff)@ == old(buff)@ + spec_u32_to_le_bytes(v),
{
    let _ = buff.write_u32::<LittleEndian>(v);
}

/// Relies on byteorder's `WriteBytesExt::write_u64` with `LittleEndian`, which
/// appends `v.to_le_bytes()` through `io::Write`; writing to a `Vec<u8>`
/// always succeeds.
#[verifier::external_body]
pub(crate) fn push_u64_le(buff: &mut Vec<u8>, v: u64)
    ensures
        final(buff)@ == old(buff)@ + spec_u64_to_le_bytes(v),
{
    let _ = buff.write_u64::<LittleEndian>(v);
}

} // verus!
