//! Small helpers without a better home.

use vstd::prelude::*;

verus! {

/// Starting value of the 32-bit FNV-1a hash.
pub const FNV_OFFSET_BASIS: u32 = 2166136261;

/// Multiplier of the 32-bit FNV-1a hash.
pub const FNV_PRIME: u32 = 16777619;

/// One FNV-1a round: mix the byte in, then multiply modulo 2^32.
pub open spec fn fnv1a_step(hash: u32, byte: u8) -> u32 {
    (((hash ^ (byte as u32)) as int * (FNV_PRIME as int)) % 0x1_0000_0000) as u32
}

/// The 32-bit FNV-1a hash of a byte string.
pub open spec fn fnv1a(bytes: Seq<u8>) -> u32
    decreases bytes.len(),
{
    if bytes.len() == 0 {
        FNV_OFFSET_BASIS
    } else {
        fnv1a_step(fnv1a(bytes.drop_last()), bytes.last())
    }
}

/// Hashes the UTF-8 bytes of `text` with 32-bit FNV-1a.
pub fn hash_tmb(text: String) -> (hash: u32)
    ensures
        hash == fnv1a(vstd::utf8::encode_utf8(text@)),
{
    let bytes = text.as_str().as_bytes();
    let mut hash: u32 = FNV_OFFSET_BASIS;
    let mut i: usize = 0;
    while i < bytes.len()
        invariant
            i <= bytes@.len(),
            hash == fnv1a(bytes@.subrange(0, i as int)),
        decreases bytes@.len() - i,
    {
        assert(bytes@.subrange(0, i as int + 1).drop_last() =~= bytes@.subrange(0, i as int));
        hash = hash ^ (bytes[i] as u32);
        hash = hash.wrapping_mul(FNV_PRIME);
        i = i + 1;
    }
    assert(bytes@.subrange(0, i as int) =~= bytes@);
    hash
}

} // verus!
