//! The strong hash abstraction: a collision-resistant digest of a byte
//! slice, used to confirm candidate matches found by the weak checksum.

use vstd::prelude::*;

verus! {

/// A pure function from byte content to a 128-bit digest. The library
/// treats the digest value opaquely; collision resistance is a property of
/// the chosen implementation, not something stated here.
pub trait StrongHash {
    /// The digest this implementation assigns to the given bytes.
    spec fn hash_spec(data: Seq<u8>) -> u128;

    /// Compute the digest of `data`.
    fn hash(data: &[u8]) -> (h: u128)
        ensures
            h == Self::hash_spec(data@),
    ;
}

} // verus!

pub mod md5;
