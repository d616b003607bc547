//! Applying a [`Delta`] to old content to reconstruct the new content,
//! re-verifying the strong hash of every reused chunk.

use vstd::prelude::*;
use vstd::arithmetic::div_mod::{
    lemma_basic_div, lemma_div_plus_one, lemma_fundamental_div_mod,
    lemma_mod_division_less_than_divisor,
};

use crate::delta_generation::{tokens_model, Delta, DeltaToken, DeltaTokenModel};
use crate::strong_hash::StrongHash;
use crate::{chunk_bytes, spec_num_chunks, CONTENT_VERSION};

verus! {

/// Why applying a delta failed.
#[derive(PartialEq, Eq, Debug)]
pub enum PatchError {
    /// The delta was produced for another format version.
    VersionMismatch { expected: u64, actual: u64 },
    /// A `Reused` token names a chunk that the supplied old content does
    /// not have.
    ChunkOutOfBound { chunk_num: u64, chunk_size: u64, old_content_len: u64 },
    /// A reused old chunk's recomputed strong hash disagrees with the hash
    /// carried by the delta: the old content is not the content the
    /// signature was built from.
    ChunkHashMismatch { chunk_num: u64 },
}

/// What applying a token stream to `old` yields: the concatenation, in
/// token order, of each `Added` token's bytes and each `Reused` token's
/// old-chunk bytes — or the error of the first token that fails. `Removed`
/// tokens contribute nothing.
pub open spec fn spec_patch_tokens<S: StrongHash>(
    old: Seq<u8>,
    chunk_size: u64,
    tokens: Seq<DeltaTokenModel>,
) -> Result<Seq<u8>, PatchError>
    decreases tokens.len(),
{
    if tokens.len() == 0 {
        Ok(Seq::empty())
    } else {
        let head = match tokens[0] {
            DeltaTokenModel::Added(bytes) => Ok(bytes),
            DeltaTokenModel::Reused(chunk_num, hash) => {
                if chunk_num < spec_num_chunks(old.len() as int, chunk_size as int) {
                    let chunk = chunk_bytes(old, chunk_size as int, chunk_num as int);
                    if S::hash_spec(chunk) == hash {
                        Ok(chunk)
                    } else {
                        Err(PatchError::ChunkHashMismatch { chunk_num })
                    }
                } else {
                    Err(
                        PatchError::ChunkOutOfBound {
                            chunk_num,
                            chunk_size,
                            old_content_len: old.len() as u64,
                        },
                    )
                }
            },
            DeltaTokenModel::Removed(_) => Ok(Seq::empty()),
        };
        match head {
            Err(e) => Err(e),
            Ok(bytes) => match spec_patch_tokens::<S>(
                old,
                chunk_size,
                tokens.subrange(1, tokens.len() as int),
            ) {
                Ok(rest) => Ok(bytes + rest),
                Err(e) => Err(e),
            },
        }
    }
}

/// What [`patch`] yields for a delta: a version check, then the token
/// stream applied to the old content.
pub open spec fn spec_patch<S: StrongHash>(old: Seq<u8>, delta: Delta) -> Result<
    Seq<u8>,
    PatchError,
> {
    if delta.base_content_version != CONTENT_VERSION {
        Err(
            PatchError::VersionMismatch {
                expected: CONTENT_VERSION,
                actual: delta.base_content_version,
            },
        )
    } else {
        spec_patch_tokens::<S>(old, delta.chunk_size, tokens_model(delta.tokens@))
    }
}

/// With `count = ceil(len / size)` chunks, every chunk number below
/// `count` starts strictly before `len`.
proof fn lemma_chunk_start_in_bounds(len: int, size: int, c: int)
    requires
        size >= 1,
        0 <= c < spec_num_chunks(len, size),
    ensures
        c * size < len,
        c * size >= 0,
{
    let count = (len + size - 1) / size;
    let rem = (len + size - 1) % size;
    lemma_fundamental_div_mod(len + size - 1, size);
    lemma_mod_division_less_than_divisor(len + size - 1, size);
    // len + size - 1 == size * count + rem with 0 <= rem < size,
    // so (count - 1) * size == len - 1 - rem <= len - 1.
    assert(c * size <= (count - 1) * size) by (nonlinear_arith)
        requires
            c <= count - 1,
            size >= 1,
    ;
    assert((count - 1) * size == size * count - size) by (nonlinear_arith);
    assert(c * size >= 0) by (nonlinear_arith)
        requires
            c >= 0,
            size >= 0,
    ;
}

/// Reconstruct the new content by interpreting the delta's tokens against
/// the old content: write each `Added` token's bytes, re-hash and write
/// each `Reused` token's old chunk, and skip `Removed` tokens. Fails on a
/// version mismatch, a chunk number out of range, or a reused chunk whose
/// hash does not match.
#[verifier::loop_isolation(false)]
pub fn patch<S: StrongHash>(old_content: &[u8], delta: Delta) -> (r: Result<Vec<u8>, PatchError>)
    ensures
        match r {
            Ok(out) => spec_patch::<S>(old_content@, delta) == Ok::<Seq<u8>, PatchError>(out@),
            Err(e) => spec_patch::<S>(old_content@, delta) == Err::<Seq<u8>, PatchError>(e),
        },
{
    if delta.base_content_version != CONTENT_VERSION {
        return Err(
            PatchError::VersionMismatch {
                expected: CONTENT_VERSION,
                actual: delta.base_content_version,
            },
        );
    }

    let ghost old = old_content@;
    let ghost all = tokens_model(delta.tokens@);
    let chunk_size = delta.chunk_size;
    let old_len = old_content.len();

    // How many chunks the old content has under this chunk size.
    let chunk_count: u64 = if chunk_size == 0 || old_len == 0 {
        0
    } else {
        ((old_len as u64) - 1) / chunk_size + 1
    };
    proof {
        if chunk_size != 0 && old_len != 0 {
            lemma_div_plus_one(old.len() - 1, chunk_size as int);
        }
        if chunk_size != 0 && old_len == 0 {
            lemma_basic_div(chunk_size - 1, chunk_size as int);
        }
        assert(chunk_count == spec_num_chunks(old.len() as int, chunk_size as int));
    }

    let mut out: Vec<u8> = Vec::new();
    let mut t: usize = 0;
    proof {
        assert(all.subrange(0, all.len() as int) =~= all);
        if let Ok(rest) = spec_patch_tokens::<S>(old, chunk_size, all) {
            assert(Seq::<u8>::empty() + rest =~= rest);
        }
    }
    while t < delta.tokens.len()
        invariant
            t <= delta.tokens.len(),
            match spec_patch_tokens::<S>(old, chunk_size, all.subrange(t as int, all.len() as int)) {
                Ok(rest) => spec_patch_tokens::<S>(old, chunk_size, all) == Ok::<
                    Seq<u8>,
                    PatchError,
                >(out@ + rest),
                Err(e) => spec_patch_tokens::<S>(old, chunk_size, all) == Err::<
                    Seq<u8>,
                    PatchError,
                >(e),
            },
        decreases delta.tokens.len() - t,
    {
        let ghost tail = all.subrange(t as int, all.len() as int);
        let ghost pre = out@;
        proof {
            assert(tail[0] == delta.tokens@[t as int]@);
            assert(tail.subrange(1, tail.len() as int) =~= all.subrange(
                t + 1,
                all.len() as int,
            ));
        }
        match &delta.tokens[t] {
            DeltaToken::Reused(chunk_number, hash) => {
                let chunk_number = *chunk_number;
                let hash = *hash;
                if chunk_number >= chunk_count {
                    return Err(
                        PatchError::ChunkOutOfBound {
                            chunk_num: chunk_number,
                            chunk_size,
                            old_content_len: old_len as u64,
                        },
                    );
                }
                proof {
                    lemma_chunk_start_in_bounds(
                        old.len() as int,
                        chunk_size as int,
                        chunk_number as int,
                    );
                }
                let start = ((chunk_number as u128) * (chunk_size as u128)) as usize;
                let end = if (old_len - start) as u64 <= chunk_size {
                    old_len
                } else {
                    start + (chunk_size as usize)
                };
                let chunk = vstd::slice::slice_subrange(old_content, start, end);
                proof {
                    assert(chunk@ == chunk_bytes(old, chunk_size as int, chunk_number as int));
                }
                let rehash = S::hash(chunk);
                if rehash != hash {
                    return Err(PatchError::ChunkHashMismatch { chunk_num: chunk_number });
                }
                out.extend_from_slice(chunk);
                proof {
                    if let Ok(rest) = spec_patch_tokens::<S>(
                        old,
                        chunk_size,
                        tail.subrange(1, tail.len() as int),
                    ) {
                        assert(pre + (chunk@ + rest) =~= out@ + rest);
                    }
                }
            },
            DeltaToken::Added(bytes) => {
                out.extend_from_slice(bytes.as_slice());
                proof {
                    if let Ok(rest) = spec_patch_tokens::<S>(
                        old,
                        chunk_size,
                        tail.subrange(1, tail.len() as int),
                    ) {
                        assert(pre + (tail[0]->Added_0 + rest) =~= out@ + rest);
                    }
                }
            },
            DeltaToken::Removed(_) => {
                // Informational only: no bytes to write.
                proof {
                    if let Ok(rest) = spec_patch_tokens::<S>(
                        old,
                        chunk_size,
                        tail.subrange(1, tail.len() as int),
                    ) {
                        assert(pre + (Seq::<u8>::empty() + rest) =~= out@ + rest);
                    }
                }
            },
        }
        t = t + 1;
    }
    proof {
        assert(all.subrange(all.len() as int, all.len() as int) =~= Seq::<DeltaTokenModel>::empty());
        assert(out@ + Seq::<u8>::empty() =~= out@);
    }
    Ok(out)
}

} // verus!
