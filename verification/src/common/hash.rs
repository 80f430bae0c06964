//! The 64-bit XXH64 hash, as the `twox_hash` crate computes it.

use std::hash::Hasher;
use twox_hash::XxHash64;
use vstd::prelude::*;

verus! {

/// `twox_hash::XxHash64`, the running state of one XXH64 computation. What is said of
/// it is said through the seed that it was made with and the bytes that were written to
/// it.
#[verifier::external_type_specification]
#[verifier::external_body]
pub struct ExXxHash64(XxHash64);

/// The seed that `hasher` was made with.
pub uninterp spec fn hasher_seed(hasher: XxHash64) -> u64;

/// All bytes that were written to `hasher` so far, in the order of the writes.
pub uninterp spec fn hasher_input(hasher: XxHash64) -> Seq<u8>;

/// The XXH64 digest of `input` under `seed`.
pub uninterp spec fn xxh64(seed: u64, input: Seq<u8>) -> u64;

/// `XxHash64::default`: a hasher with seed 0 that has been fed nothing yet.
#[verifier::external_body]
pub(crate) fn hasher_default() -> (hasher: XxHash64)
    ensures
        hasher_seed(hasher) == 0,
        hasher_input(hasher) == Seq::<u8>::empty(),
{
    XxHash64::default()
}

/// `Hasher::write` of `XxHash64`: the hasher consumes `bytes` after what it has consumed
/// before. It keeps whole chunks in its running state and the rest in a buffer, so only
/// the run of all bytes matters, not how it was cut into writes.
#[verifier::external_body]
pub(crate) fn hasher_write(hasher: &mut XxHash64, bytes: &[u8])
    ensures
        hasher_seed(*final(hasher)) == hasher_seed(*old(hasher)),
        hasher_input(*final(hasher)) == hasher_input(*old(hasher)) + bytes@,
{
    hasher.write(bytes)
}

/// `Hasher::finish` of `XxHash64`: the digest of everything written so far. It is
/// computed from the seed and the written bytes alone and leaves the hasher as it is.
#[verifier::external_body]
pub(crate) fn hasher_finish(hasher: &XxHash64) -> (digest: u64)
    ensures
        digest == xxh64(hasher_seed(*hasher), hasher_input(*hasher)),
{
    hasher.finish()
}

} // verus!
