//! Producing a [`Delta`] from a signature and new content: the rolling
//! scan of the new bytes, the weak-then-strong two-level lookup, and the
//! token stream encoder.

use vstd::prelude::*;

use bitvec::vec::BitVec;

use crate::rolling_checksum::RollingChecksum;
use crate::strong_hash::StrongHash;
use crate::{ChunkNumber, Signature};

verus! {

/// One step of a delta: reuse an old chunk, insert literal bytes, or note
/// that an old chunk was not reused anywhere.
#[derive(PartialEq, Eq, Debug)]
pub enum DeltaToken {
    /// Reuse the old chunk with this number; the strong hash is carried so
    /// the patcher can re-verify the chunk's integrity.
    Reused(ChunkNumber, u128),
    /// Literal bytes to emit at this position.
    Added(Vec<u8>),
    /// This old chunk was not reused anywhere; carries no bytes.
    Removed(ChunkNumber),
}

/// The mathematical shape of a [`DeltaToken`], with literal bytes as a
/// sequence.
pub enum DeltaTokenModel {
    Reused(ChunkNumber, u128),
    Added(Seq<u8>),
    Removed(ChunkNumber),
}

impl View for DeltaToken {
    type V = DeltaTokenModel;

    open spec fn view(&self) -> DeltaTokenModel {
        match self {
            DeltaToken::Reused(c, h) => DeltaTokenModel::Reused(*c, *h),
            DeltaToken::Added(bytes) => DeltaTokenModel::Added(bytes@),
            DeltaToken::Removed(c) => DeltaTokenModel::Removed(*c),
        }
    }
}

/// The token views of a token list, in order.
pub open spec fn tokens_model(tokens: Seq<DeltaToken>) -> Seq<DeltaTokenModel> {
    Seq::new(tokens.len(), |i: int| tokens[i]@)
}

/// The delta between old content (represented by its signature) and new
/// content: the ordered token stream, plus the chunk size and version
/// carried over from the signature.
#[derive(Debug)]
pub struct Delta {
    pub tokens: Vec<DeltaToken>,
    pub chunk_size: u64,
    pub base_content_version: u64,
}

/// Where the scan window starting at `pos` ends: a full chunk-size window,
/// clipped at the end of the content.
pub open spec fn window_end(new: Seq<u8>, chunk_size: int, pos: int) -> int {
    if pos + chunk_size <= new.len() {
        pos + chunk_size
    } else {
        new.len() as int
    }
}

/// The bytes of the scan window starting at `pos`.
pub open spec fn window_at(new: Seq<u8>, chunk_size: int, pos: int) -> Seq<u8>
    recommends
        0 <= pos <= new.len(),
{
    new.subrange(pos, window_end(new, chunk_size, pos))
}

/// The first entry in `entries` whose strong hash is `h`, if any.
pub open spec fn first_strong_match(entries: Seq<(u128, ChunkNumber)>, h: u128) -> Option<
    (u128, ChunkNumber),
>
    decreases entries.len(),
{
    if entries.len() == 0 {
        None
    } else if entries[0].0 == h {
        Some(entries[0])
    } else {
        first_strong_match(entries.subrange(1, entries.len() as int), h)
    }
}

/// The two-level lookup at one scan position: find the window's weak
/// checksum in the index, then scan the entry list for the window's strong
/// hash. A weak collision without a strong match finds nothing.
pub open spec fn match_at<R: RollingChecksum, S: StrongHash>(
    sig: Signature,
    new: Seq<u8>,
    pos: int,
) -> Option<(u128, ChunkNumber)> {
    let w = window_at(new, sig.spec_chunk_size() as int, pos);
    let checksum = R::checksum_spec(w);
    if sig.index().dom().contains(checksum) {
        first_strong_match(sig.index()[checksum], S::hash_spec(w))
    } else {
        None
    }
}

/// The first scan position at or after `pos` whose window matches an index
/// entry, with the matched entry; `None` when the scan runs off the end.
/// The window shrinks on the left once its right edge reaches the end of
/// the content.
pub open spec fn find_match_from<R: RollingChecksum, S: StrongHash>(
    sig: Signature,
    new: Seq<u8>,
    pos: int,
) -> Option<(int, (u128, ChunkNumber))>
    decreases new.len() - pos,
{
    if pos < 0 || pos > new.len() {
        None
    } else if window_at(new, sig.spec_chunk_size() as int, pos).len() == 0 {
        None
    } else {
        match match_at::<R, S>(sig, new, pos) {
            Some(e) => Some((pos, e)),
            None => find_match_from::<R, S>(sig, new, pos + 1),
        }
    }
}

/// Bounds on what [`find_match_from`] returns: a found position lies
/// between `pos` and the end, its window is non-empty, and it is where the
/// two-level lookup succeeds.
pub proof fn lemma_find_match_from_bounds<R: RollingChecksum, S: StrongHash>(
    sig: Signature,
    new: Seq<u8>,
    pos: int,
)
    requires
        0 <= pos <= new.len(),
    ensures
        match find_match_from::<R, S>(sig, new, pos) {
            Some(m) => {
                &&& pos <= m.0 < new.len()
                &&& window_at(new, sig.spec_chunk_size() as int, m.0).len() >= 1
                &&& window_end(new, sig.spec_chunk_size() as int, m.0) <= new.len()
                &&& match_at::<R, S>(sig, new, m.0) == Some(m.1)
            },
            None => true,
        },
    decreases new.len() - pos,
{
    let cs = sig.spec_chunk_size() as int;
    if window_at(new, cs, pos).len() == 0 {
    } else if match_at::<R, S>(sig, new, pos) is Some {
    } else {
        lemma_find_match_from_bounds::<R, S>(sig, new, pos + 1);
    }
}

/// The `Added` / `Reused` part of the delta for the unmatched suffix of
/// `new` beginning at `left`: literal bytes up to the next match, the
/// matched chunk, then the rest; or one final `Added` when nothing more
/// matches.
pub open spec fn spec_delta_body<R: RollingChecksum, S: StrongHash>(
    sig: Signature,
    new: Seq<u8>,
    left: int,
) -> Seq<DeltaTokenModel>
    decreases new.len() - left
        when 0 <= left <= new.len()
        via spec_delta_body_decreases::<R, S>
{
    match find_match_from::<R, S>(sig, new, left) {
        None => if left < new.len() {
            seq![DeltaTokenModel::Added(new.subrange(left, new.len() as int))]
        } else {
            Seq::empty()
        },
        Some(m) => {
            let pos = m.0;
            let hash = m.1.0;
            let number = m.1.1;
            let matched_end = window_end(new, sig.spec_chunk_size() as int, pos);
            let prefix = if pos > left {
                seq![DeltaTokenModel::Added(new.subrange(left, pos))]
            } else {
                Seq::empty()
            };
            prefix + seq![DeltaTokenModel::Reused(number, hash)] + spec_delta_body::<R, S>(
                sig,
                new,
                matched_end,
            )
        },
    }
}

#[via_fn]
proof fn spec_delta_body_decreases<R: RollingChecksum, S: StrongHash>(
    sig: Signature,
    new: Seq<u8>,
    left: int,
) {
    lemma_find_match_from_bounds::<R, S>(sig, new, left);
}

/// The chunk numbers named by the `Reused` tokens of a token stream.
pub open spec fn spec_reused_set(tokens: Seq<DeltaTokenModel>) -> Set<ChunkNumber>
    decreases tokens.len(),
{
    if tokens.len() == 0 {
        Set::empty()
    } else {
        let rest = spec_reused_set(tokens.drop_last());
        match tokens.last() {
            DeltaTokenModel::Reused(c, _) => rest.insert(c),
            _ => rest,
        }
    }
}

/// The trailing `Removed` tokens: one for each chunk number below
/// `chunk_count` that is not in `reused`, in ascending order.
pub open spec fn spec_removed_tokens(chunk_count: int, reused: Set<ChunkNumber>) -> Seq<
    DeltaTokenModel,
>
    decreases chunk_count,
{
    if chunk_count <= 0 {
        Seq::empty()
    } else {
        let prev = spec_removed_tokens(chunk_count - 1, reused);
        if reused.contains((chunk_count - 1) as ChunkNumber) {
            prev
        } else {
            prev.push(DeltaTokenModel::Removed((chunk_count - 1) as ChunkNumber))
        }
    }
}

/// The complete token stream that delta generation produces for `new`
/// against `sig`: the greedy `Added` / `Reused` body followed by the
/// `Removed` enumeration of unreused old chunks.
pub open spec fn spec_delta_tokens<R: RollingChecksum, S: StrongHash>(
    sig: Signature,
    new: Seq<u8>,
) -> Seq<DeltaTokenModel> {
    let body = spec_delta_body::<R, S>(sig, new, 0);
    body + spec_removed_tokens(
        sig.spec_chunk_count() as int,
        spec_reused_set(body),
    )
}

/// The dense bitset of reused chunk numbers, backed by the `bitvec`
/// crate's bit vector. The backing collection is hidden from the
/// verifier; what it holds is named by [`bits_of`], and the three
/// operations below are trusted to behave as the `bitvec` source shows.
#[verifier::external_body]
pub struct ReusedBits {
    bits: BitVec,
}

/// The bits held by a [`ReusedBits`], in index order.
pub uninterp spec fn bits_of(b: ReusedBits) -> Seq<bool>;

/// Relies on bitvec::vec::BitVec::repeat: a bit vector of `len` copies of
/// the given bit.
#[verifier::external_body]
fn bits_repeat(len: usize) -> (b: ReusedBits)
    ensures
        bits_of(b).len() == len,
        forall|i: int| 0 <= i < len ==> !bits_of(b)[i],
{
    ReusedBits { bits: BitVec::repeat(false, len) }
}

/// Relies on bitvec::slice::BitSlice::set: writes one bit in place,
/// leaving all others unchanged.
#[verifier::external_body]
fn bits_set(b: &mut ReusedBits, index: usize, value: bool)
    requires
        index < bits_of(*old(b)).len(),
    ensures
        bits_of(*final(b)) == bits_of(*old(b)).update(index as int, value),
{
    b.bits.set(index, value);
}

/// Relies on bitvec::slice::BitSlice's index operator: reads one bit.
#[verifier::external_body]
fn bits_get(b: &ReusedBits, index: usize) -> (v: bool)
    requires
        index < bits_of(*b).len(),
    ensures
        v == bits_of(*b)[index as int],
{
    b.bits[index]
}

/// What the matcher reports on success: how many literal bytes precede the
/// match in the scanned tail, how long the matched range is, and which old
/// chunk it matches.
struct ReusedChunkDescriptor {
    bytes_until_reused: usize,
    reused_chunk_size: usize,
    chunk_number: ChunkNumber,
    chunk_strong_hash: u128,
}

/// Scan `new_content` from `left` with a rolling checksum window, looking
/// for the first position whose window matches an old chunk: weak checksum
/// first, then strong hash against the index's entry list. Once the right
/// edge of the window reaches the end of the content the window shrinks on
/// the left, so a short final old chunk can still match at the tail.
#[verifier::loop_isolation(false)]
fn find_reused_chunk<R: RollingChecksum, S: StrongHash>(
    old_signature: &Signature,
    new_content: &[u8],
    left: usize,
) -> (r: Option<ReusedChunkDescriptor>)
    requires
        left <= new_content@.len(),
    ensures
        match r {
            Some(d) => {
                &&& find_match_from::<R, S>(*old_signature, new_content@, left as int) == Some(
                    (
                        left + d.bytes_until_reused,
                        (d.chunk_strong_hash, d.chunk_number),
                    ),
                )
                &&& left + d.bytes_until_reused < new_content@.len()
                &&& d.reused_chunk_size >= 1
                &&& left + d.bytes_until_reused + d.reused_chunk_size == window_end(
                    new_content@,
                    old_signature.spec_chunk_size() as int,
                    left + d.bytes_until_reused,
                )
                &&& left + d.bytes_until_reused + d.reused_chunk_size <= new_content@.len()
            },
            None => find_match_from::<R, S>(*old_signature, new_content@, left as int) is None,
        },
{
    let ghost data = new_content@;
    let ghost cs = old_signature.spec_chunk_size() as int;
    let chunk_size = old_signature.chunk_size();
    let len = new_content.len();

    let mut chunk_after_end = if len - left <= chunk_size {
        len
    } else {
        left + chunk_size
    };
    let mut rolling_checksum = R::new(vstd::slice::slice_subrange(
        new_content,
        left,
        chunk_after_end,
    ));
    let mut chunk_start = left;

    while chunk_after_end - chunk_start > 0
        invariant
            left <= chunk_start <= chunk_after_end <= len,
            chunk_after_end as int == window_end(data, cs, chunk_start as int),
            rolling_checksum.wf(),
            rolling_checksum.window() == data.subrange(chunk_start as int, chunk_after_end as int),
            find_match_from::<R, S>(*old_signature, data, left as int) == find_match_from::<R, S>(
                *old_signature,
                data,
                chunk_start as int,
            ),
        decreases len - chunk_start,
    {
        let ghost window = window_at(data, cs, chunk_start as int);
        proof {
            assert(rolling_checksum.window() == window);
        }
        let checksum = rolling_checksum.checksum();

        let queried = old_signature.quick_query(&checksum);
        if let Some(strong_hashes) = queried {
            let ghost entries = old_signature.index()[checksum];
            let hash = S::hash(vstd::slice::slice_subrange(
                new_content,
                chunk_start,
                chunk_after_end,
            ));
            proof {
                assert(entries.subrange(0, entries.len() as int) =~= entries);
            }
            let mut k: usize = 0;
            while k < strong_hashes.len()
                invariant
                    k <= strong_hashes@.len(),
                    strong_hashes@ == entries,
                    first_strong_match(entries, hash) == first_strong_match(
                        entries.subrange(k as int, entries.len() as int),
                        hash,
                    ),
                decreases strong_hashes@.len() - k,
            {
                let (signature_hash, chunk_number) = strong_hashes[k];
                proof {
                    assert(entries.subrange(k as int, entries.len() as int)[0] == entries[k as int]);
                }
                if signature_hash == hash {
                    proof {
                        assert(first_strong_match(entries, hash) == Some(entries[k as int]));
                        assert(match_at::<R, S>(*old_signature, data, chunk_start as int) == Some(
                            entries[k as int],
                        ));
                    }
                    return Some(ReusedChunkDescriptor {
                        bytes_until_reused: chunk_start - left,
                        reused_chunk_size: chunk_after_end - chunk_start,
                        chunk_number,
                        chunk_strong_hash: signature_hash,
                    });
                }
                proof {
                    assert(entries.subrange(k as int, entries.len() as int).subrange(
                        1,
                        entries.len() - k,
                    ) =~= entries.subrange(k + 1, entries.len() as int));
                }
                k = k + 1;
            }
            proof {
                assert(entries.subrange(entries.len() as int, entries.len() as int)
                    =~= Seq::<(u128, ChunkNumber)>::empty());
                assert(match_at::<R, S>(*old_signature, data, chunk_start as int) is None);
            }
        } else {
            proof {
                assert(match_at::<R, S>(*old_signature, data, chunk_start as int) is None);
            }
        }

        // No match here: slide the left edge forward, extending the right
        // edge while content remains.
        let departing = *vstd::slice::slice_index_get(new_content, chunk_start);
        rolling_checksum.pop_byte(departing, chunk_after_end - chunk_start);
        proof {
            assert(data.subrange(chunk_start as int, chunk_after_end as int).subrange(
                1,
                chunk_after_end - chunk_start,
            ) =~= data.subrange(chunk_start + 1, chunk_after_end as int));
        }
        if chunk_after_end < len {
            let incoming = *vstd::slice::slice_index_get(new_content, chunk_after_end);
            rolling_checksum.push_byte(incoming);
            proof {
                assert(data.subrange(chunk_start + 1, chunk_after_end as int).push(incoming)
                    =~= data.subrange(chunk_start + 1, chunk_after_end + 1));
            }
            chunk_after_end = chunk_after_end + 1;
        }
        chunk_start = chunk_start + 1;
    }
    proof {
        assert(window_at(data, cs, chunk_start as int).len() == 0);
    }
    None
}

proof fn lemma_tokens_model_push(tokens: Seq<DeltaToken>, t: DeltaToken)
    ensures
        tokens_model(tokens.push(t)) == tokens_model(tokens).push(t@),
{
    assert(tokens_model(tokens.push(t)) =~= tokens_model(tokens).push(t@));
}

proof fn lemma_reused_set_push(tokens: Seq<DeltaTokenModel>, t: DeltaTokenModel)
    ensures
        spec_reused_set(tokens.push(t)) == match t {
            DeltaTokenModel::Reused(c, _) => spec_reused_set(tokens).insert(c),
            _ => spec_reused_set(tokens),
        },
{
    assert(tokens.push(t).drop_last() =~= tokens);
    assert(tokens.push(t).last() == t);
}

/// Walk the new content emitting `Added` and `Reused` tokens: literal
/// bytes up to each match found by the scanner, then the matched chunk;
/// when nothing more matches, the remaining bytes as one final `Added`,
/// followed by `Removed` tokens for every old chunk never reused, in
/// ascending order. A matched chunk number at or past the signature's
/// chunk count is emitted but not tracked: such a signature is
/// inconsistent, and the token stream is still best-effort.
#[verifier::loop_isolation(false)]
pub fn generate_delta<R: RollingChecksum, S: StrongHash>(
    old_signature: &Signature,
    new_content: &[u8],
) -> (delta: Delta)
    ensures
        delta.chunk_size == old_signature.spec_chunk_size() as u64,
        delta.base_content_version == old_signature.spec_version(),
        tokens_model(delta.tokens@) == spec_delta_tokens::<R, S>(*old_signature, new_content@),
{
    let ghost data = new_content@;
    let ghost sig = *old_signature;
    let content_len = new_content.len();
    proof {
        assert(data.len() == content_len);
    }
    let chunk_size = old_signature.chunk_size();
    let chunk_count = old_signature.chunk_count();

    let mut reused_chunks = bits_repeat(chunk_count);
    let mut tokens: Vec<DeltaToken> = Vec::new();
    let mut left: usize = 0;
    proof {
        assert(tokens_model(tokens@) + spec_delta_body::<R, S>(sig, data, 0)
            =~= spec_delta_body::<R, S>(sig, data, 0));
    }
    loop
        invariant
            left <= data.len(),
            bits_of(reused_chunks).len() == chunk_count,
            spec_delta_body::<R, S>(sig, data, 0) == tokens_model(tokens@)
                + spec_delta_body::<R, S>(sig, data, left as int),
            forall|j: int|
                0 <= j < chunk_count ==> (bits_of(reused_chunks)[j] <==> spec_reused_set(
                    tokens_model(tokens@),
                ).contains(j as ChunkNumber)),
        decreases data.len() - left,
    {
        let ghost tokens_before = tokens_model(tokens@);
        match find_reused_chunk::<R, S>(old_signature, new_content, left) {
            Some(reused_chunk) => {
                proof {
                    assert(left + reused_chunk.bytes_until_reused < data.len());
                    assert(left + reused_chunk.bytes_until_reused
                        + reused_chunk.reused_chunk_size <= data.len());
                }
                let ghost pos = left + reused_chunk.bytes_until_reused;
                let ghost matched_end = pos + reused_chunk.reused_chunk_size;
                let ghost prefix: Seq<DeltaTokenModel> = if pos > left {
                    seq![DeltaTokenModel::Added(data.subrange(left as int, pos as int))]
                } else {
                    Seq::empty()
                };
                proof {
                    assert(spec_delta_body::<R, S>(sig, data, left as int) == prefix + seq![
                        DeltaTokenModel::Reused(
                            reused_chunk.chunk_number,
                            reused_chunk.chunk_strong_hash,
                        ),
                    ] + spec_delta_body::<R, S>(sig, data, matched_end as int));
                }
                if reused_chunk.bytes_until_reused > 0 {
                    let added = vstd::slice::slice_to_vec(vstd::slice::slice_subrange(
                        new_content,
                        left,
                        left + reused_chunk.bytes_until_reused,
                    ));
                    proof {
                        lemma_tokens_model_push(tokens@, DeltaToken::Added(added));
                        lemma_reused_set_push(
                            tokens_model(tokens@),
                            DeltaToken::Added(added)@,
                        );
                    }
                    tokens.push(DeltaToken::Added(added));
                }
                proof {
                    let t = DeltaToken::Reused(
                        reused_chunk.chunk_number,
                        reused_chunk.chunk_strong_hash,
                    );
                    lemma_tokens_model_push(tokens@, t);
                    lemma_reused_set_push(tokens_model(tokens@), t@);
                }
                tokens.push(DeltaToken::Reused(
                    reused_chunk.chunk_number,
                    reused_chunk.chunk_strong_hash,
                ));
                proof {
                    assert(tokens_model(tokens@) =~= tokens_before + prefix + seq![
                        DeltaTokenModel::Reused(
                            reused_chunk.chunk_number,
                            reused_chunk.chunk_strong_hash,
                        ),
                    ]);
                    assert(spec_delta_body::<R, S>(sig, data, 0) =~= tokens_model(tokens@)
                        + spec_delta_body::<R, S>(sig, data, matched_end as int));
                    assert(spec_reused_set(tokens_model(tokens@)) == spec_reused_set(
                        tokens_before,
                    ).insert(reused_chunk.chunk_number));
                }
                if reused_chunk.chunk_number < chunk_count as u64 {
                    bits_set(&mut reused_chunks, reused_chunk.chunk_number as usize, true);
                }
                left = left + reused_chunk.bytes_until_reused + reused_chunk.reused_chunk_size;
            },
            None => {
                // No match up to the end of the new content: finish up.
                if new_content.len() - left > 0 {
                    let added = vstd::slice::slice_to_vec(vstd::slice::slice_subrange(
                        new_content,
                        left,
                        new_content.len(),
                    ));
                    proof {
                        lemma_tokens_model_push(tokens@, DeltaToken::Added(added));
                        lemma_reused_set_push(
                            tokens_model(tokens@),
                            DeltaToken::Added(added)@,
                        );
                    }
                    tokens.push(DeltaToken::Added(added));
                }
                let ghost body = tokens_model(tokens@);
                let ghost reused = spec_reused_set(body);
                proof {
                    assert(body =~= spec_delta_body::<R, S>(sig, data, 0));
                }

                // Enumerate the old chunks that were never reused.
                let mut i: usize = 0;
                while i < chunk_count
                    invariant
                        i <= chunk_count,
                        bits_of(reused_chunks).len() == chunk_count,
                        forall|j: int|
                            0 <= j < chunk_count ==> (bits_of(reused_chunks)[j]
                                <==> reused.contains(j as ChunkNumber)),
                        tokens_model(tokens@) == body + spec_removed_tokens(i as int, reused),
                    decreases chunk_count - i,
                {
                    let chunk_is_reused = bits_get(&reused_chunks, i);
                    if !chunk_is_reused {
                        proof {
                            lemma_tokens_model_push(tokens@, DeltaToken::Removed(i as u64));
                        }
                        tokens.push(DeltaToken::Removed(i as u64));
                    }
                    proof {
                        assert(tokens_model(tokens@) =~= body + spec_removed_tokens(
                            i + 1,
                            reused,
                        ));
                    }
                    i = i + 1;
                }
                proof {
                    assert(tokens_model(tokens@) == spec_delta_tokens::<R, S>(sig, data));
                }
                return Delta {
                    tokens,
                    chunk_size: chunk_size as u64,
                    base_content_version: old_signature.version(),
                };
            },
        }
    }
}

} // verus!
