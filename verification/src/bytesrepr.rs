//! The persisted byte format's primitives: little-endian 32-bit integers and
//! fixed 32-byte addresses, with the structured errors a decoder can raise.
//! This byte form is persisted by every validator, so it must be stable
//! bit-for-bit; each reader states exactly which bytes it consumes.

use vstd::prelude::*;

use vstd::bytes::{spec_u32_from_le_bytes, spec_u32_to_le_bytes, u32_from_le_bytes, u32_to_le_bytes};
use vstd::slice::slice_subrange;

verus! {

/// Length in bytes of a fixed content-identifying address.
pub const KEY_HASH_LENGTH: usize = 32;

/// A structured decoding error: the buffer ended before the value did, or
/// an exact-length decode left bytes over.
#[derive(Debug, Clone, Copy, PartialEq, Eq, Structural)]
pub enum Error {
    EarlyEndOfStream,
    LeftOverBytes,
}

/// Appends the four little-endian bytes of `x` to `out`.
pub fn write_u32(out: &mut Vec<u8>, x: u32)
    ensures
        final(out)@ == old(out)@ + spec_u32_to_le_bytes(x),
{
    let mut piece = u32_to_le_bytes(x);
    out.append(&mut piece);
}

/// Reads the little-endian 32-bit integer at `offset`.
pub fn read_u32(bytes: &[u8], offset: usize) -> (x: u32)
    requires
        offset + 4 <= bytes@.len(),
    ensures
        x == spec_u32_from_le_bytes(bytes@.subrange(offset as int, offset as int + 4)),
{
    let n = bytes.len();
    proof {
        assert(offset + 4 <= n);
    }
    let piece = slice_subrange(bytes, offset, offset + 4);
    u32_from_le_bytes(piece)
}

/// Appends all 32 bytes of the address to `out`.
pub fn write_hash(out: &mut Vec<u8>, hash: &[u8; 32])
    ensures
        final(out)@ == old(out)@ + hash@,
{
    let mut i: usize = 0;
    while i < KEY_HASH_LENGTH
        invariant
            i <= KEY_HASH_LENGTH,
            out@ == old(out)@ + hash@.take(i as int),
        decreases KEY_HASH_LENGTH - i,
    {
        out.push(hash[i]);
        proof {
            assert(old(out)@ + hash@.take(i as int + 1) =~= (old(out)@ + hash@.take(i as int)).push(
                hash@[i as int],
            ));
        }
        i = i + 1;
    }
    proof {
        assert(hash@.take(KEY_HASH_LENGTH as int) =~= hash@);
    }
}

/// Reads the 32-byte address at `offset`.
pub fn read_hash(bytes: &[u8], offset: usize) -> (hash: [u8; 32])
    requires
        offset + 32 <= bytes@.len(),
    ensures
        hash@ == bytes@.subrange(offset as int, offset as int + 32),
{
    let n = bytes.len();
    proof {
        assert(offset + 32 <= n);
    }
    let mut hash: [u8; 32] = [0u8; 32];
    let mut i: usize = 0;
    while i < KEY_HASH_LENGTH
        invariant
            i <= KEY_HASH_LENGTH,
            n == bytes@.len(),
            offset + 32 <= n,
            hash@.len() == 32,
            forall|j: int| 0 <= j < i ==> hash@[j] == bytes@[offset + j],
        decreases KEY_HASH_LENGTH - i,
    {
        hash[i] = bytes[offset + i];
        i = i + 1;
    }
    proof {
        assert(hash@ =~= bytes@.subrange(offset as int, offset as int + 32));
    }
    hash
}

} // verus!
