//! An rsync-style three-phase delta transfer library.
//!
//! Given an old file and a new file, [`signature_generation::generate_signature`]
//! produces a compact signature of the old file, [`delta_generation::generate_delta`]
//! produces a delta describing the new file as reused old chunks plus literal
//! inserts, and [`patch::patch`] reconstructs the new file from the old file and
//! the delta.

use vstd::prelude::*;

use std::collections::HashMap;

pub mod delta_generation;
pub mod patch;
pub mod properties;
pub mod rolling_checksum;
pub mod signature_generation;
pub mod strong_hash;

verus! {

/// Identifies a chunk of the old file by its position in chunking order.
pub type ChunkNumber = u64;

/// The version tag carried by signatures and deltas, letting the patcher
/// reject data produced by an incompatible format.
pub const CONTENT_VERSION: u64 = 2;

/// How many chunks a file of length `len` splits into with the given chunk
/// size: the number of full chunks plus one for a short final chunk, if any.
pub open spec fn spec_num_chunks(len: int, chunk_size: int) -> int {
    if chunk_size <= 0 {
        0
    } else {
        (len + chunk_size - 1) / chunk_size
    }
}

/// The bytes of chunk `i` of `content` under the given chunk size: a full
/// window, except that the final chunk may stop short at the end of the
/// content.
pub open spec fn chunk_bytes(content: Seq<u8>, chunk_size: int, i: int) -> Seq<u8>
    recommends
        chunk_size >= 1,
        0 <= i < spec_num_chunks(content.len() as int, chunk_size),
{
    let start = i * chunk_size;
    let end = if start + chunk_size <= content.len() {
        start + chunk_size
    } else {
        content.len() as int
    };
    content.subrange(start, end)
}

/// The index built from the old file: for each weak checksum value, the
/// ordered list of `(strong hash, chunk number)` pairs of the chunks that
/// have that weak checksum. Immutable after construction.
pub struct Signature {
    checksum_to_hashes: HashMap<u32, Vec<(u128, ChunkNumber)>>,
    chunk_size: usize,
    chunk_count: usize,
    version: u64,
}

impl Signature {
    /// The mathematical content of the index: weak checksum value to the
    /// sequence of `(strong hash, chunk number)` pairs stored under it.
    pub closed spec fn index(&self) -> Map<u32, Seq<(u128, ChunkNumber)>> {
        Map::new(
            |w: u32| self.checksum_to_hashes@.contains_key(w),
            |w: u32| self.checksum_to_hashes@[w]@,
        )
    }

    pub closed spec fn spec_chunk_size(&self) -> usize {
        self.chunk_size
    }

    pub closed spec fn spec_chunk_count(&self) -> usize {
        self.chunk_count
    }

    pub closed spec fn spec_version(&self) -> u64 {
        self.version
    }

    /// The fixed window length that was used to chunk the old file.
    #[verifier::when_used_as_spec(spec_chunk_size)]
    pub fn chunk_size(&self) -> (n: usize)
        ensures
            n == self.spec_chunk_size(),
    {
        self.chunk_size
    }

    /// How many chunks the old file was split into.
    #[verifier::when_used_as_spec(spec_chunk_count)]
    pub fn chunk_count(&self) -> (n: usize)
        ensures
            n == self.spec_chunk_count(),
    {
        self.chunk_count
    }

    /// The format version this signature was built with.
    #[verifier::when_used_as_spec(spec_version)]
    pub fn version(&self) -> (v: u64)
        ensures
            v == self.spec_version(),
    {
        self.version
    }

    /// How many distinct weak checksum values the index holds.
    pub fn index_len(&self) -> (n: usize)
        ensures
            n == self.index().dom().len(),
    {
        proof {
            assert(self.index().dom() =~= self.checksum_to_hashes@.dom());
        }
        self.checksum_to_hashes.len()
    }

    /// Assemble a signature from its parts, as read back from storage.
    /// The parts are taken as they are: a signature assembled from
    /// inconsistent parts is tolerated by delta generation and rejected,
    /// chunk by chunk, by patching.
    pub fn from_parts(
        checksum_to_hashes: HashMap<u32, Vec<(u128, ChunkNumber)>>,
        chunk_size: usize,
        chunk_count: usize,
        version: u64,
    ) -> (sig: Signature)
        ensures
            sig.spec_chunk_size() == chunk_size,
            sig.spec_chunk_count() == chunk_count,
            sig.spec_version() == version,
            forall|w: u32|
                sig.index().dom().contains(w) <==> checksum_to_hashes@.contains_key(w),
            forall|w: u32|
                sig.index().dom().contains(w) ==> sig.index()[w] == checksum_to_hashes@[w]@,
    {
        Signature { checksum_to_hashes, chunk_size, chunk_count, version }
    }

    /// Take a signature apart, for writing it out to storage.
    pub fn into_parts(self) -> (parts: (
        HashMap<u32, Vec<(u128, ChunkNumber)>>,
        usize,
        usize,
        u64,
    ))
        ensures
            parts.1 == self.spec_chunk_size(),
            parts.2 == self.spec_chunk_count(),
            parts.3 == self.spec_version(),
            forall|w: u32| parts.0@.contains_key(w) <==> self.index().dom().contains(w),
            forall|w: u32| parts.0@.contains_key(w) ==> parts.0@[w]@ == self.index()[w],
    {
        (self.checksum_to_hashes, self.chunk_size, self.chunk_count, self.version)
    }

    /// Look up the list of `(strong hash, chunk number)` pairs stored under
    /// a weak checksum value, if any chunk has that weak checksum.
    pub fn quick_query(&self, weak_checksum: &u32) -> (r: Option<&Vec<(u128, ChunkNumber)>>)
        ensures
            match r {
                Some(v) => {
                    &&& self.index().dom().contains(*weak_checksum)
                    &&& v@ == self.index()[*weak_checksum]
                },
                None => !self.index().dom().contains(*weak_checksum),
            },
    {
        self.checksum_to_hashes.get(weak_checksum)
    }
}

} // verus!
