//! Building a [`Signature`] from old content: the chunk-size heuristic,
//! per-chunk hashing, and construction of the weak-checksum index.

use vstd::prelude::*;
use vstd::arithmetic::div_mod::{lemma_basic_div, lemma_div_multiples_vanish_fancy, lemma_div_non_zero};
use vstd::arithmetic::mul::lemma_mul_is_distributive_add;

use std::collections::HashMap;

use crate::rolling_checksum::RollingChecksum;
use crate::strong_hash::StrongHash;
use crate::{chunk_bytes, spec_num_chunks, ChunkNumber, Signature, CONTENT_VERSION};

verus! {

/// The target number of chunks for large content.
pub const MAGIC_CHUNK_COUNT: usize = 4096;

/// Bytes of index overhead per chunk: a 32-bit weak checksum, a 128-bit
/// strong hash and a 64-bit chunk number.
pub const OVERHEAD_PER_CHUNK: usize = 4 + 16 + 8;

/// The chunk count left after halving `n` while the index overhead of `n`
/// chunks would reach `len` bytes.
pub open spec fn spec_shrunk_chunk_count(n: int, len: int) -> int
    decreases n,
{
    if n <= 0 {
        0
    } else if n * OVERHEAD_PER_CHUNK >= len {
        spec_shrunk_chunk_count(n / 2, len)
    } else {
        n
    }
}

/// The chunk size the heuristic assigns to content of length `len`.
pub open spec fn spec_determine_chunk_size(len: int) -> int {
    let n = spec_shrunk_chunk_count(MAGIC_CHUNK_COUNT as int, len);
    if n == 0 {
        len
    } else {
        len / n
    }
}

/// The `(strong hash, chunk number)` pairs that the index stores under the
/// weak checksum value `w`, considering only the first `n` chunks of
/// `content`: one pair per chunk whose weak checksum is `w`, in ascending
/// chunk-number order.
pub open spec fn index_entries<R: RollingChecksum, S: StrongHash>(
    content: Seq<u8>,
    chunk_size: int,
    n: int,
    w: u32,
) -> Seq<(u128, ChunkNumber)>
    decreases n,
{
    if n <= 0 {
        Seq::empty()
    } else {
        let prev = index_entries::<R, S>(content, chunk_size, n - 1, w);
        let chunk = chunk_bytes(content, chunk_size, n - 1);
        if R::checksum_spec(chunk) == w {
            prev.push((S::hash_spec(chunk), (n - 1) as ChunkNumber))
        } else {
            prev
        }
    }
}

/// The `(strong hash, chunk number)` pairs stored under the weak checksum
/// value `w` when the index is built from precomputed per-chunk hash
/// pairs, considering only the first `n` pairs.
pub open spec fn pairs_index_entries(pairs: Seq<(u32, u128)>, n: int, w: u32) -> Seq<
    (u128, ChunkNumber),
>
    decreases n,
{
    if n <= 0 {
        Seq::empty()
    } else {
        let prev = pairs_index_entries(pairs, n - 1, w);
        if pairs[n - 1].0 == w {
            prev.push((pairs[n - 1].1, (n - 1) as ChunkNumber))
        } else {
            prev
        }
    }
}

/// What it means for a signature to describe `content`: the chunk count
/// matches the chunk size, and the index holds exactly the entries of every
/// chunk of `content`, each list in ascending chunk-number order.
pub open spec fn signature_matches<R: RollingChecksum, S: StrongHash>(
    sig: Signature,
    content: Seq<u8>,
) -> bool {
    let cs = sig.spec_chunk_size() as int;
    let cc = sig.spec_chunk_count() as int;
    &&& cc == spec_num_chunks(content.len() as int, cs)
    &&& content.len() > 0 ==> cs >= 1
    &&& forall|w: u32|
        sig.index().dom().contains(w) <==> #[trigger] index_entries::<R, S>(
            content,
            cs,
            cc,
            w,
        ).len() > 0
    &&& forall|w: u32|
        sig.index().dom().contains(w) ==> sig.index()[w] == #[trigger] index_entries::<R, S>(
            content,
            cs,
            cc,
            w,
        )
}

/// Determines a chunk size for content of the given length: aim for
/// [`MAGIC_CHUNK_COUNT`] chunks, halving the target while the index
/// overhead would reach the content length; if that reaches zero, use a
/// single chunk covering everything.
pub fn determine_chunk_size(content_len: usize) -> (r: usize)
    ensures
        r == spec_determine_chunk_size(content_len as int),
        content_len > 0 ==> r >= 1,
        content_len == 0 ==> r == 0,
{
    let mut chunk_count: usize = MAGIC_CHUNK_COUNT;
    while chunk_count > 0
        invariant_except_break
            chunk_count <= MAGIC_CHUNK_COUNT,
            spec_shrunk_chunk_count(chunk_count as int, content_len as int)
                == spec_shrunk_chunk_count(MAGIC_CHUNK_COUNT as int, content_len as int),
        ensures
            spec_shrunk_chunk_count(chunk_count as int, content_len as int)
                == spec_shrunk_chunk_count(MAGIC_CHUNK_COUNT as int, content_len as int),
            chunk_count as int == spec_shrunk_chunk_count(MAGIC_CHUNK_COUNT as int, content_len as int),
            chunk_count == 0 || chunk_count * OVERHEAD_PER_CHUNK < content_len,
        decreases chunk_count,
    {
        proof {
            assert(chunk_count * OVERHEAD_PER_CHUNK <= 4096 * 28) by (nonlinear_arith)
                requires
                    chunk_count <= 4096,
                    OVERHEAD_PER_CHUNK == 28,
            ;
        }
        let overhead = chunk_count * OVERHEAD_PER_CHUNK;
        if overhead >= content_len {
            chunk_count = chunk_count / 2;
        } else {
            break;
        }
    }
    if chunk_count == 0 {
        content_len
    } else {
        proof {
            if content_len > 0 {
                assert(chunk_count * OVERHEAD_PER_CHUNK >= chunk_count) by (nonlinear_arith)
                    requires
                        chunk_count >= 1,
                ;
                lemma_div_non_zero(content_len as int, chunk_count as int);
            }
        }
        content_len / chunk_count
    }
}

/// Split `content` into consecutive chunks of `chunk_size` (the final chunk
/// may be shorter), hash each chunk with both algorithms, and build the
/// index from the resulting triples in chunk-number order.
pub fn generate_signature_with_chunk_size<R: RollingChecksum, S: StrongHash>(
    content: &[u8],
    chunk_size: usize,
) -> (sig: Signature)
    requires
        content@.len() > 0 ==> chunk_size >= 1,
    ensures
        sig.spec_chunk_size() == chunk_size,
        sig.spec_chunk_count() == spec_num_chunks(content@.len() as int, chunk_size as int),
        sig.spec_version() == CONTENT_VERSION,
        signature_matches::<R, S>(sig, content@),
{
    let ghost data = content@;
    let ghost cs = chunk_size as int;

    proof {
        if cs >= 1 {
            lemma_basic_div(cs - 1, cs);
        }
    }

    // Hash every chunk, in chunk-number order.
    let mut tuples: Vec<(u32, u128)> = Vec::new();
    let mut start: usize = 0;
    while start < content.len()
        invariant
            data == content@,
            cs == chunk_size as int,
            data.len() > 0 ==> cs >= 1,
            start <= data.len(),
            start < data.len() ==> start == tuples@.len() * cs,
            start == data.len() ==> tuples@.len() == spec_num_chunks(data.len() as int, cs),
            forall|j: int|
                0 <= j < tuples@.len() ==> #[trigger] tuples@[j] == (
                    R::checksum_spec(chunk_bytes(data, cs, j)),
                    S::hash_spec(chunk_bytes(data, cs, j)),
                ),
        decreases data.len() - start,
    {
        let ghost i = tuples@.len() as int;
        let end = if content.len() - start <= chunk_size {
            content.len()
        } else {
            start + chunk_size
        };
        proof {
            assert(start == i * cs);
            lemma_mul_is_distributive_add(cs, i, 1);
            assert(cs * (i + 1) == cs * i + cs);
            assert(cs * i == i * cs) by (nonlinear_arith);
            assert(cs * (i + 1) == (i + 1) * cs) by (nonlinear_arith);
            assert(end as int == if i * cs + cs <= data.len() { i * cs + cs } else { data.len() as int });
            assert(chunk_bytes(data, cs, i) == data.subrange(start as int, end as int));
            if end == data.len() {
                // The final chunk: its number is the last, so the total
                // count comes out as the ceiling of len / chunk_size.
                let r = data.len() - i * cs;
                lemma_div_multiples_vanish_fancy(i + 1, r - 1, cs);
                assert(cs * (i + 1) + (r - 1) == data.len() + cs - 1);
            }
        }
        let chunk = vstd::slice::slice_subrange(content, start, end);
        let checksum = R::new(chunk).checksum();
        let hash = S::hash(chunk);
        tuples.push((checksum, hash));
        start = end;
    }
    proof {
        assert(tuples@.len() == spec_num_chunks(data.len() as int, cs));
    }

    // Build the index sequentially over the hashed chunks.
    let ghost cc = tuples@.len() as int;
    let sig = signature_from_chunk_hashes(chunk_size, tuples);
    proof {
        let pairs = tuples@;
        assert forall|w: u32| sig.index().dom().contains(w) implies sig.index()[w]
            == index_entries::<R, S>(data, cs, cc, w) by {
            lemma_pairs_entries_match::<R, S>(data, cs, pairs, cc, w);
        }
        assert forall|w: u32|
            sig.index().dom().contains(w) <==> #[trigger] index_entries::<R, S>(
                data,
                cs,
                cc,
                w,
            ).len() > 0 by {
            lemma_pairs_entries_match::<R, S>(data, cs, pairs, cc, w);
        }
    }
    sig
}

/// When each pair really is the weak checksum and strong hash of the
/// corresponding chunk of `content`, the index built from the pairs is the
/// index of the content.
proof fn lemma_pairs_entries_match<R: RollingChecksum, S: StrongHash>(
    content: Seq<u8>,
    chunk_size: int,
    pairs: Seq<(u32, u128)>,
    n: int,
    w: u32,
)
    requires
        0 <= n <= pairs.len(),
        forall|j: int|
            0 <= j < pairs.len() ==> #[trigger] pairs[j] == (
                R::checksum_spec(chunk_bytes(content, chunk_size, j)),
                S::hash_spec(chunk_bytes(content, chunk_size, j)),
            ),
    ensures
        pairs_index_entries(pairs, n, w) == index_entries::<R, S>(content, chunk_size, n, w),
    decreases n,
{
    if n > 0 {
        lemma_pairs_entries_match::<R, S>(content, chunk_size, pairs, n - 1, w);
    }
}

/// Build the index from precomputed per-chunk hash pairs, one pair per
/// chunk in chunk-number order: for each pair, append the strong hash and
/// the chunk number to the list stored under the weak checksum, creating
/// the list on first occurrence. This is the sequential assembly step of
/// signature generation; the per-chunk hashing that produces the pairs can
/// run in any order, chunk by chunk.
pub fn signature_from_chunk_hashes(chunk_size: usize, chunk_hashes: Vec<(u32, u128)>) -> (sig:
    Signature)
    ensures
        sig.spec_chunk_size() == chunk_size,
        sig.spec_chunk_count() == chunk_hashes@.len(),
        sig.spec_version() == CONTENT_VERSION,
        forall|w: u32|
            sig.index().dom().contains(w) <==> #[trigger] pairs_index_entries(
                chunk_hashes@,
                chunk_hashes@.len() as int,
                w,
            ).len() > 0,
        forall|w: u32|
            sig.index().dom().contains(w) ==> sig.index()[w] == #[trigger] pairs_index_entries(
                chunk_hashes@,
                chunk_hashes@.len() as int,
                w,
            ),
{
    let ghost pairs = chunk_hashes@;
    let ghost cc = pairs.len() as int;
    let mut index: HashMap<u32, Vec<(u128, ChunkNumber)>> = HashMap::new();
    let mut i: usize = 0;
    while i < chunk_hashes.len()
        invariant
            cc == pairs.len() as int,
            pairs == chunk_hashes@,
            i <= pairs.len(),
            forall|w: u32|
                index@.contains_key(w) <==> #[trigger] pairs_index_entries(
                    pairs,
                    i as int,
                    w,
                ).len() > 0,
            forall|w: u32|
                index@.contains_key(w) ==> index@[w]@ == #[trigger] pairs_index_entries(
                    pairs,
                    i as int,
                    w,
                ),
        decreases pairs.len() - i,
    {
        let (weak, strong) = chunk_hashes[i];
        let ghost before = index@;
        let entry: (u128, ChunkNumber) = (strong, i as ChunkNumber);
        if index.contains_key(&weak) {
            let mut list = index.remove(&weak).unwrap();
            proof {
                assert(list@ == pairs_index_entries(pairs, i as int, weak));
            }
            list.push(entry);
            index.insert(weak, list);
        } else {
            let mut list: Vec<(u128, ChunkNumber)> = Vec::new();
            list.push(entry);
            proof {
                assert(pairs_index_entries(pairs, i as int, weak) =~= Seq::empty());
            }
            index.insert(weak, list);
        }
        proof {
            assert(index@.contains_key(weak));
            assert(index@[weak]@ == pairs_index_entries(pairs, i + 1, weak));
            assert(pairs_index_entries(pairs, i + 1, weak).len() > 0);
            assert forall|w: u32| w != weak implies pairs_index_entries(pairs, i + 1, w)
                == pairs_index_entries(pairs, i as int, w) by {
            }
            assert forall|w: u32| w != weak implies (index@.contains_key(w)
                <==> before.contains_key(w)) && (index@.contains_key(w) ==> index@[w]
                == before[w]) by {
            }
            assert forall|w: u32| index@.contains_key(w) implies #[trigger] pairs_index_entries(
                pairs,
                i + 1,
                w,
            ).len() > 0 by {
                if w != weak {
                    assert(before.contains_key(w));
                    assert(pairs_index_entries(pairs, i as int, w).len() > 0);
                }
            }
            assert forall|w: u32| #[trigger] pairs_index_entries(pairs, i + 1, w).len() > 0
                implies index@.contains_key(w) by {
                if w != weak {
                    assert(pairs_index_entries(pairs, i as int, w).len() > 0);
                    assert(before.contains_key(w));
                }
            }
            assert forall|w: u32| index@.contains_key(w) implies index@[w]@
                == #[trigger] pairs_index_entries(pairs, i + 1, w) by {
                if w != weak {
                    assert(before.contains_key(w));
                    assert(before[w]@ == pairs_index_entries(pairs, i as int, w));
                }
            }
        }
        i = i + 1;
    }

    Signature::from_parts(index, chunk_size, chunk_hashes.len(), CONTENT_VERSION)
}

/// Generate the signature of `content`, choosing the chunk size with the
/// heuristic of [`determine_chunk_size`]. Empty content yields the empty
/// signature with chunk size zero.
pub fn generate_signature<R: RollingChecksum, S: StrongHash>(content: &[u8]) -> (sig: Signature)
    ensures
        sig.spec_chunk_size() == spec_determine_chunk_size(content@.len() as int),
        sig.spec_chunk_count() == spec_num_chunks(
            content@.len() as int,
            sig.spec_chunk_size() as int,
        ),
        sig.spec_version() == CONTENT_VERSION,
        signature_matches::<R, S>(sig, content@),
{
    let chunk_size = determine_chunk_size(content.len());
    generate_signature_with_chunk_size::<R, S>(content, chunk_size)
}

} // verus!
