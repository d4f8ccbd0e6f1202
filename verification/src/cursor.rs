//! Bounds-checked little-endian primitive reads over an immutable byte
//! buffer at an explicit position. Each read is a pure function of
//! `(buffer, position)`; a read that would pass the end of the buffer
//! fails with `DecodeError::Truncated` and never touches memory out of
//! bounds.
//!
//! Positions are carried as `u64` so that offset arithmetic over
//! attacker-controlled 32-bit fields cannot wrap; the specification
//! works over unbounded integers and the executable code mirrors it with
//! saturating sums.

use vstd::prelude::*;
use vstd::bytes::{spec_u16_from_le_bytes, spec_u32_from_le_bytes, spec_u64_from_le_bytes};
use vstd::bytes::{u16_from_le_bytes, u32_from_le_bytes, u64_from_le_bytes};
use vstd::slice::slice_subrange;
use vstd::slice::slice_to_vec;

use crate::error::DecodeError;

verus! {

/// Clamp a mathematical position into the range a `u64` error field can
/// carry. Positions beyond `u64::MAX` can only arise from sums that are
/// already far outside any real buffer.
pub open spec fn clamp64(p: int) -> u64 {
    if p < 0 {
        0u64
    } else if p > u64::MAX as int {
        u64::MAX
    } else {
        p as u64
    }
}

/// The error raised by a read of `width` bytes at `pos` in a buffer of
/// `len` bytes, when that range does not fit.
pub open spec fn trunc_err(pos: int, width: int, len: int) -> DecodeError {
    DecodeError::Truncated { position: clamp64(pos), width: clamp64(width), available: clamp64(len) }
}

/// Whether `width` bytes starting at `pos` lie inside a buffer of `len` bytes.
pub open spec fn in_bounds(pos: int, width: int, len: int) -> bool {
    0 <= pos && pos + width <= len
}

/// The byte value at `pos`.
pub open spec fn u8_at(b: Seq<u8>, pos: int) -> u8 {
    b[pos]
}

/// The little-endian `u16` value whose two bytes start at `pos`.
pub open spec fn u16_at(b: Seq<u8>, pos: int) -> u16 {
    spec_u16_from_le_bytes(b.subrange(pos, pos + 2))
}

/// The little-endian `u32` value whose four bytes start at `pos`.
pub open spec fn u32_at(b: Seq<u8>, pos: int) -> u32 {
    spec_u32_from_le_bytes(b.subrange(pos, pos + 4))
}

/// The little-endian `u64` value whose eight bytes start at `pos`.
pub open spec fn u64_at(b: Seq<u8>, pos: int) -> u64 {
    spec_u64_from_le_bytes(b.subrange(pos, pos + 8))
}

/// What reading one byte at `pos` yields.
pub open spec fn spec_read_u8(b: Seq<u8>, pos: int) -> Result<u8, DecodeError> {
    if in_bounds(pos, 1, b.len() as int) {
        Ok(u8_at(b, pos))
    } else {
        Err(trunc_err(pos, 1, b.len() as int))
    }
}

/// What reading a little-endian `u16` at `pos` yields.
pub open spec fn spec_read_u16(b: Seq<u8>, pos: int) -> Result<u16, DecodeError> {
    if in_bounds(pos, 2, b.len() as int) {
        Ok(u16_at(b, pos))
    } else {
        Err(trunc_err(pos, 2, b.len() as int))
    }
}

/// What reading a little-endian `u32` at `pos` yields.
pub open spec fn spec_read_u32(b: Seq<u8>, pos: int) -> Result<u32, DecodeError> {
    if in_bounds(pos, 4, b.len() as int) {
        Ok(u32_at(b, pos))
    } else {
        Err(trunc_err(pos, 4, b.len() as int))
    }
}

/// What reading a little-endian `u64` at `pos` yields.
pub open spec fn spec_read_u64(b: Seq<u8>, pos: int) -> Result<u64, DecodeError> {
    if in_bounds(pos, 8, b.len() as int) {
        Ok(u64_at(b, pos))
    } else {
        Err(trunc_err(pos, 8, b.len() as int))
    }
}

/// A 32-bit little-endian field reinterpreted as a signed value
/// (two's complement).
pub open spec fn as_signed32(x: u32) -> int {
    if x < 0x8000_0000 {
        x as int
    } else {
        x as int - 0x1_0000_0000
    }
}

/// The little-endian `i32` value whose four bytes start at `pos`.
pub open spec fn i32_at(b: Seq<u8>, pos: int) -> i32 {
    as_signed32(u32_at(b, pos)) as i32
}

/// What reading a little-endian `i32` at `pos` yields.
pub open spec fn spec_read_i32(b: Seq<u8>, pos: int) -> Result<i32, DecodeError> {
    match spec_read_u32(b, pos) {
        Ok(x) => Ok(as_signed32(x) as i32),
        Err(e) => Err(e),
    }
}

/// Whether the bytes of `b` starting at `pos` equal `t`.
pub open spec fn tag_matches(b: Seq<u8>, pos: int, t: Seq<u8>) -> bool {
    forall|j: int| 0 <= j < t.len() ==> b[pos + j] == t[j]
}

/// What checking the literal tag `t` at `pos` yields: `Truncated` when the
/// tag does not fit, `InvalidMagic` when the bytes differ.
pub open spec fn spec_read_tag(b: Seq<u8>, pos: int, t: Seq<u8>) -> Result<(), DecodeError> {
    if !in_bounds(pos, t.len() as int, b.len() as int) {
        Err(trunc_err(pos, t.len() as int, b.len() as int))
    } else if tag_matches(b, pos, t) {
        Ok(())
    } else {
        Err(DecodeError::InvalidMagic { position: clamp64(pos) })
    }
}

/// What copying `width` raw bytes at `pos` yields.
pub open spec fn spec_read_bytes(b: Seq<u8>, pos: int, width: int) -> Result<Seq<u8>, DecodeError> {
    if in_bounds(pos, width, b.len() as int) {
        Ok(b.subrange(pos, pos + width))
    } else {
        Err(trunc_err(pos, width, b.len() as int))
    }
}

/// `a + b` clamped to `u64::MAX`. Used for position arithmetic: a clamped
/// sum is already past the end of any buffer, so the following bounds
/// check fails exactly as the unbounded sum would.
pub fn sat_add(a: u64, b: u64) -> (r: u64)
    ensures
        r == clamp64(a + b),
{
    if a <= u64::MAX - b {
        a + b
    } else {
        u64::MAX
    }
}

/// A clamped position fails or succeeds every read exactly as the exact
/// position does, with the same error value.
pub proof fn lemma_clamp_read(b: Seq<u8>, pos: int)
    requires
        pos >= 0,
        b.len() <= usize::MAX,
    ensures
        spec_read_u8(b, clamp64(pos) as int) == spec_read_u8(b, pos),
        spec_read_u16(b, clamp64(pos) as int) == spec_read_u16(b, pos),
        spec_read_u32(b, clamp64(pos) as int) == spec_read_u32(b, pos),
        spec_read_u64(b, clamp64(pos) as int) == spec_read_u64(b, pos),
        spec_read_i32(b, clamp64(pos) as int) == spec_read_i32(b, pos),
{
}

/// Every read primitive fails exactly when its range passes the end of
/// the buffer, and then always with `Truncated` — never with a value, a
/// read out of bounds, or a panic.
pub proof fn lemma_reads_fail_iff_out_of_bounds(b: Seq<u8>, pos: int, width: int)
    ensures
        spec_read_u8(b, pos) is Err <==> !in_bounds(pos, 1, b.len() as int),
        spec_read_u16(b, pos) is Err <==> !in_bounds(pos, 2, b.len() as int),
        spec_read_u32(b, pos) is Err <==> !in_bounds(pos, 4, b.len() as int),
        spec_read_u64(b, pos) is Err <==> !in_bounds(pos, 8, b.len() as int),
        spec_read_i32(b, pos) is Err <==> !in_bounds(pos, 4, b.len() as int),
        spec_read_bytes(b, pos, width) is Err <==> !in_bounds(pos, width, b.len() as int),
        spec_read_u8(b, pos) is Err ==> spec_read_u8(b, pos) == Err::<u8, DecodeError>(
            trunc_err(pos, 1, b.len() as int),
        ),
        spec_read_u16(b, pos) is Err ==> spec_read_u16(b, pos) == Err::<u16, DecodeError>(
            trunc_err(pos, 2, b.len() as int),
        ),
        spec_read_u32(b, pos) is Err ==> spec_read_u32(b, pos) == Err::<u32, DecodeError>(
            trunc_err(pos, 4, b.len() as int),
        ),
        spec_read_u64(b, pos) is Err ==> spec_read_u64(b, pos) == Err::<u64, DecodeError>(
            trunc_err(pos, 8, b.len() as int),
        ),
        spec_read_i32(b, pos) is Err ==> spec_read_i32(b, pos) == Err::<i32, DecodeError>(
            trunc_err(pos, 4, b.len() as int),
        ),
        spec_read_bytes(b, pos, width) is Err ==> spec_read_bytes(b, pos, width) == Err::<
            Seq<u8>,
            DecodeError,
        >(trunc_err(pos, width, b.len() as int)),
        forall|p: int, w: int, l: int| #[trigger] trunc_err(p, w, l) matches DecodeError::Truncated { .. },
{
}

pub fn read_u8(buf: &[u8], pos: u64) -> (r: Result<u8, DecodeError>)
    ensures
        r == spec_read_u8(buf@, pos as int),
{
    let len = buf.len() as u64;
    if pos < len {
        Ok(buf[pos as usize])
    } else {
        Err(DecodeError::Truncated { position: pos, width: 1, available: len })
    }
}

pub fn read_u16(buf: &[u8], pos: u64) -> (r: Result<u16, DecodeError>)
    ensures
        r == spec_read_u16(buf@, pos as int),
{
    let len = buf.len() as u64;
    if len >= 2 && pos <= len - 2 {
        let p = pos as usize;
        Ok(u16_from_le_bytes(slice_subrange(buf, p, p + 2)))
    } else {
        Err(DecodeError::Truncated { position: pos, width: 2, available: len })
    }
}

pub fn read_u32(buf: &[u8], pos: u64) -> (r: Result<u32, DecodeError>)
    ensures
        r == spec_read_u32(buf@, pos as int),
{
    let len = buf.len() as u64;
    if len >= 4 && pos <= len - 4 {
        let p = pos as usize;
        Ok(u32_from_le_bytes(slice_subrange(buf, p, p + 4)))
    } else {
        Err(DecodeError::Truncated { position: pos, width: 4, available: len })
    }
}

pub fn read_u64(buf: &[u8], pos: u64) -> (r: Result<u64, DecodeError>)
    ensures
        r == spec_read_u64(buf@, pos as int),
{
    let len = buf.len() as u64;
    if len >= 8 && pos <= len - 8 {
        let p = pos as usize;
        Ok(u64_from_le_bytes(slice_subrange(buf, p, p + 8)))
    } else {
        Err(DecodeError::Truncated { position: pos, width: 8, available: len })
    }
}

pub fn read_i32(buf: &[u8], pos: u64) -> (r: Result<i32, DecodeError>)
    ensures
        r == spec_read_i32(buf@, pos as int),
{
    match read_u32(buf, pos) {
        Ok(x) => {
            if x < 0x8000_0000 {
                Ok(x as i32)
            } else {
                Ok((x as i64 - 0x1_0000_0000i64) as i32)
            }
        },
        Err(e) => Err(e),
    }
}

pub fn read_tag(buf: &[u8], pos: u64, tag: &[u8]) -> (r: Result<(), DecodeError>)
    ensures
        r == spec_read_tag(buf@, pos as int, tag@),
{
    let len = buf.len() as u64;
    let width = tag.len() as u64;
    if !(width <= len && pos <= len - width) {
        return Err(DecodeError::Truncated { position: pos, width, available: len });
    }
    let p = pos as usize;
    let mut i: usize = 0;
    while i < tag.len()
        invariant
            p == pos,
            p + tag@.len() <= buf@.len(),
            buf@.len() <= usize::MAX,
            i <= tag@.len(),
            forall|j: int| 0 <= j < i ==> buf@[p + j] == tag@[j],
        decreases tag@.len() - i,
    {
        if buf[p + i] != tag[i] {
            return Err(DecodeError::InvalidMagic { position: pos });
        }
        i += 1;
    }
    Ok(())
}

pub fn read_bytes(buf: &[u8], pos: u64, width: u64) -> (r: Result<Vec<u8>, DecodeError>)
    ensures
        (match r {
            Ok(v) => spec_read_bytes(buf@, pos as int, width as int) == Ok::<Seq<u8>, DecodeError>(v@),
            Err(e) => spec_read_bytes(buf@, pos as int, width as int) == Err::<Seq<u8>, DecodeError>(e),
        }),
{
    let len = buf.len() as u64;
    if width <= len && pos <= len - width {
        let p = pos as usize;
        let w = width as usize;
        Ok(slice_to_vec(slice_subrange(buf, p, p + w)))
    } else {
        Err(DecodeError::Truncated { position: pos, width, available: len })
    }
}

} // verus!
