//! A sharded cache whose recency of access is tracked by a chain of access
//! records, swept by an evictor that enforces count and age limits.

use vstd::prelude::*;

pub mod access;
pub mod clock;
pub mod evictor;
pub mod list;
pub mod lru;

verus! {

/// Failures of the cache's own bookkeeping.
#[derive(Debug, Clone, Copy, PartialEq, Eq, Structural)]
pub enum Error {
    /// The clock could not be read, or its reading does not fit a timestamp.
    Fatal,
    /// Every access-record identifier has been handed out.
    Exhausted,
}

/// What the store holds for a key: the value, and the identifier of the
/// access record that currently stands for the entry's recency.
pub struct Cache<V> {
    pub value: V,
    pub access: u64,
}

/// What std's default hasher makes of a key.
pub uninterp spec fn std_hash_of(key: u64) -> u64;

/// Relies on `BuildHasher::hash_one` over `BuildHasherDefault<DefaultHasher>`:
/// every such hasher starts from the same state, so the code depends on the
/// key alone.
#[verifier::external_body]
fn hash_key(key: u64) -> (r: u64)
    ensures
        r == std_hash_of(key),
{
    std::hash::BuildHasher::hash_one(
        &std::hash::BuildHasherDefault::<std::collections::hash_map::DefaultHasher>::default(),
        key,
    )
}

/// A 64-bit hash code folded into 32 bits: its halves combined by xor.
pub open spec fn fold32(code: u64) -> u32 {
    (((code >> 32u64) ^ code) & 0xFFFF_FFFFu64) as u32
}

/// Fold a 64-bit hash code into 32 bits.
pub fn key_to_hash32(code: u64) -> (r: u32)
    ensures
        r == fold32(code),
{
    (((code >> 32u64) ^ code) & 0xFFFF_FFFFu64) as u32
}

/// The partition, out of `shards`, that owns a key whose hash code is `code`.
pub fn shard_for_hash(code: u64, shards: usize) -> (r: usize)
    requires
        shards > 0,
    ensures
        r < shards,
        r == fold32(code) as nat % shards as nat,
{
    (key_to_hash32(code) as usize) % shards
}

/// The partition, out of `shards`, that owns `key`.
pub fn shard_of(key: u64, shards: usize) -> (r: usize)
    requires
        shards > 0,
    ensures
        r < shards,
        r == fold32(std_hash_of(key)) as nat % shards as nat,
{
    shard_for_hash(hash_key(key), shards)
}

} // verus!
