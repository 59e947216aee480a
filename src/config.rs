use vstd::prelude::*;

verus! {

/// Object key of the hot metadata in the bucket.
pub const HOT_DATA_OBJECT_KEY: &'static str = "hot_data";

/// Key prefix under which snapshot parts are stored.
pub const SNAPSHOTS_PREFIX: &'static str = "snapshots";

/// Size in bytes of one plaintext chunk of the stream cipher.
///
/// Every chunk carries a tag of `TAG_SIZE` bytes, and a whole chunk is held in
/// memory, so this trades tag overhead against memory. It is a multiple of 64.
pub const ENCRYPTION_CHUNK_SIZE: usize = 10_000_000;

/// Largest body of one uploaded object, in bytes.
pub const MAX_OBJECT_SIZE: u64 = 5_000_000_000;

/// Size in bytes of an authentication tag.
pub const TAG_SIZE: u64 = 16;

} // verus!
