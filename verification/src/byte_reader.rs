//! Little-endian reads at a byte position, in the manner of `read_exact`:
//! a read that would run past the end of the data fails.
use vstd::prelude::*;
use vstd::bytes::{
    spec_u16_from_le_bytes, spec_u32_from_le_bytes, spec_u64_from_le_bytes, u16_from_le_bytes,
    u32_from_le_bytes, u64_from_le_bytes,
};
use vstd::slice::slice_subrange;

verus! {

/// Whether `n` bytes can be read from `data` starting at `pos`.
pub open spec fn can_read(data: Seq<u8>, pos: int, n: int) -> bool {
    0 <= pos && 0 <= n && pos + n <= data.len()
}

/// The little-endian `u16` stored at `pos`.
pub open spec fn le_u16_at(data: Seq<u8>, pos: int) -> u16 {
    spec_u16_from_le_bytes(data.subrange(pos, pos + 2))
}

/// The little-endian `u32` stored at `pos`.
pub open spec fn le_u32_at(data: Seq<u8>, pos: int) -> u32 {
    spec_u32_from_le_bytes(data.subrange(pos, pos + 4))
}

/// The little-endian `u64` stored at `pos`.
pub open spec fn le_u64_at(data: Seq<u8>, pos: int) -> u64 {
    spec_u64_from_le_bytes(data.subrange(pos, pos + 8))
}

/// Reads a little-endian `u16` at `pos`; `None` when fewer than 2 bytes remain.
pub fn read_u16_le(data: &[u8], pos: usize) -> (res: Option<u16>)
    ensures
        res is Some <==> can_read(data@, pos as int, 2),
        res matches Some(v) ==> v == le_u16_at(data@, pos as int),
{
    if pos <= data.len() && data.len() - pos >= 2 {
        Some(u16_from_le_bytes(slice_subrange(data, pos, pos + 2)))
    } else {
        None
    }
}

/// Reads a little-endian `u32` at `pos`; `None` when fewer than 4 bytes remain.
pub fn read_u32_le(data: &[u8], pos: usize) -> (res: Option<u32>)
    ensures
        res is Some <==> can_read(data@, pos as int, 4),
        res matches Some(v) ==> v == le_u32_at(data@, pos as int),
{
    if pos <= data.len() && data.len() - pos >= 4 {
        Some(u32_from_le_bytes(slice_subrange(data, pos, pos + 4)))
    } else {
        None
    }
}

/// Reads a little-endian `u64` at `pos`; `None` when fewer than 8 bytes remain.
pub fn read_u64_le(data: &[u8], pos: usize) -> (res: Option<u64>)
    ensures
        res is Some <==> can_read(data@, pos as int, 8),
        res matches Some(v) ==> v == le_u64_at(data@, pos as int),
{
    if pos <= data.len() && data.len() - pos >= 8 {
        Some(u64_from_le_bytes(slice_subrange(data, pos, pos + 8)))
    } else {
        None
    }
}

/// Converts a file position to an index into `data`, if it lies within or at the end of it.
pub fn position_in(data: &[u8], pos: u64) -> (res: Option<usize>)
    ensures
        res is Some <==> pos <= data@.len(),
        res matches Some(p) ==> p == pos,
{
    if pos <= data.len() as u64 {
        Some(pos as usize)
    } else {
        None
    }
}

} // verus!
