//! Little-endian integers read from a byte buffer at a given offset.
use vstd::prelude::*;
use crate::text::{format_with_hex, with_hex};

verus! {

/// `n` bytes starting at `off` lie within `b`.
pub open spec fn in_bounds(b: Seq<u8>, off: int, n: int) -> bool {
    0 <= off && off + n <= b.len()
}

/// The little-endian 16-bit value of the bytes at `off`.
pub open spec fn le_u16(b: Seq<u8>, off: int) -> int {
    b[off] + 256 * b[off + 1]
}

/// The little-endian 32-bit value of the bytes at `off`.
pub open spec fn le_u32(b: Seq<u8>, off: int) -> int {
    le_u16(b, off) + 65536 * le_u16(b, off + 2)
}

/// The little-endian 64-bit value of the bytes at `off`.
pub open spec fn le_u64(b: Seq<u8>, off: int) -> int {
    le_u32(b, off) + 4294967296 * le_u32(b, off + 4)
}

/// The message for a read of the given kind (`"u16"`, `"u32"` or `"u64"`) that does
/// not fit in the buffer.
pub open spec fn read_error(kind: Seq<char>, off: int) -> Seq<char> {
    with_hex("read "@ + kind + " at 0x"@, off as nat, " out of bounds"@)
}

/// Whether `n` bytes at `off` fit in a buffer of `len` bytes, without overflow.
fn fits(len: usize, off: u64, n: u64) -> (r: bool)
    ensures
        r == (off + n <= len),
{
    let len = len as u64;
    off <= len && len - off >= n
}

/// Reads the little-endian `u16` at `off`; fails when it lies beyond the end of `b`.
pub fn read_u16(b: &[u8], off: u64) -> (r: Result<u16, String>)
    ensures
        r is Ok <==> in_bounds(b@, off as int, 2),
        r matches Ok(v) ==> v == le_u16(b@, off as int),
        r matches Err(e) ==> e@ == read_error("u16"@, off as int),
{
    if !fits(b.len(), off, 2) {
        let e = format_with_hex("read u16 at 0x", off, " out of bounds");
        proof {
            reveal_strlit("read u16 at 0x");
            reveal_strlit("read ");
            reveal_strlit("u16");
            reveal_strlit(" at 0x");
            assert("read u16 at 0x"@ =~= "read "@ + "u16"@ + " at 0x"@);
        }
        return Err(e);
    }
    let o = off as usize;
    Ok(b[o] as u16 + (b[o + 1] as u16) * 256)
}

/// Reads the little-endian `u32` at `off`; fails when it lies beyond the end of `b`.
pub fn read_u32(b: &[u8], off: u64) -> (r: Result<u32, String>)
    ensures
        r is Ok <==> in_bounds(b@, off as int, 4),
        r matches Ok(v) ==> v == le_u32(b@, off as int),
        r matches Err(e) ==> e@ == read_error("u32"@, off as int),
{
    if !fits(b.len(), off, 4) {
        let e = format_with_hex("read u32 at 0x", off, " out of bounds");
        proof {
            reveal_strlit("read u32 at 0x");
            reveal_strlit("read ");
            reveal_strlit("u32");
            reveal_strlit(" at 0x");
            assert("read u32 at 0x"@ =~= "read "@ + "u32"@ + " at 0x"@);
        }
        return Err(e);
    }
    let o = off as usize;
    let lo = b[o] as u32 + (b[o + 1] as u32) * 256;
    let hi = b[o + 2] as u32 + (b[o + 3] as u32) * 256;
    Ok(lo + hi * 65536)
}

/// Reads the little-endian `u64` at `off`; fails when it lies beyond the end of `b`.
pub fn read_u64(b: &[u8], off: u64) -> (r: Result<u64, String>)
    ensures
        r is Ok <==> in_bounds(b@, off as int, 8),
        r matches Ok(v) ==> v == le_u64(b@, off as int),
        r matches Err(e) ==> e@ == read_error("u64"@, off as int),
{
    if !fits(b.len(), off, 8) {
        let e = format_with_hex("read u64 at 0x", off, " out of bounds");
        proof {
            reveal_strlit("read u64 at 0x");
            reveal_strlit("read ");
            reveal_strlit("u64");
            reveal_strlit(" at 0x");
            assert("read u64 at 0x"@ =~= "read "@ + "u64"@ + " at 0x"@);
        }
        return Err(e);
    }
    let o = off as usize;
    let w0 = b[o] as u64 + (b[o + 1] as u64) * 256;
    let w1 = b[o + 2] as u64 + (b[o + 3] as u64) * 256;
    let w2 = b[o + 4] as u64 + (b[o + 5] as u64) * 256;
    let w3 = b[o + 6] as u64 + (b[o + 7] as u64) * 256;
    let lo = w0 + w1 * 65536;
    let hi = w2 + w3 * 65536;
    Ok(lo + hi * 4294967296)
}

} // verus!
