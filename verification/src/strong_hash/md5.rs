//! The MD5 strong hash, provided by the `md5` crate.

use vstd::prelude::*;

use crate::strong_hash::StrongHash;

verus! {

/// The MD5 digest of a byte sequence, packed little-endian into 128 bits.
/// The digest is a pure function of the bytes; its definition is left to
/// the `md5` crate.
pub uninterp spec fn md5_of(data: Seq<u8>) -> u128;

/// Relies on md5::compute: the digest is a function of the input bytes
/// alone, the same in every process and on every machine.
#[verifier::external_body]
fn md5_digest(data: &[u8]) -> (h: u128)
    ensures
        h == md5_of(data@),
{
    u128::from_le_bytes(md5::compute(data).into())
}

/// The MD5 implementation of [`StrongHash`].
pub struct Md5Sum {}

impl StrongHash for Md5Sum {
    open spec fn hash_spec(data: Seq<u8>) -> u128 {
        md5_of(data)
    }

    fn hash(data: &[u8]) -> (h: u128) {
        md5_digest(data)
    }
}

} // verus!
