//! Proved properties that tie the three phases together: the round-trip
//! law (patching the old content with a generated delta reproduces the new
//! content), completeness of the token stream, and determinism of
//! generation.

use vstd::prelude::*;

use crate::delta_generation::{
    find_match_from, first_strong_match, lemma_find_match_from_bounds, spec_delta_body,
    spec_delta_tokens, spec_removed_tokens, spec_reused_set, tokens_model, window_at, window_end,
    Delta, DeltaTokenModel,
};
use crate::patch::{spec_patch, spec_patch_tokens, PatchError};
use crate::rolling_checksum::RollingChecksum;
use crate::signature_generation::{index_entries, signature_matches};
use crate::strong_hash::StrongHash;
use crate::{chunk_bytes, spec_num_chunks, ChunkNumber, Signature, CONTENT_VERSION};

verus! {

proof fn lemma_seq_contains_push<T>(s: Seq<T>, x: T, y: T)
    ensures
        s.push(x).contains(y) <==> (y == x || s.contains(y)),
{
    if s.push(x).contains(y) {
        let j = choose|j: int| 0 <= j < s.push(x).len() && s.push(x)[j] == y;
        if j < s.len() {
            assert(s[j] == y);
        }
    }
    if s.contains(y) {
        let j = choose|j: int| 0 <= j < s.len() && s[j] == y;
        assert(s.push(x)[j] == y);
    }
    if y == x {
        assert(s.push(x)[s.len() as int] == y);
    }
}

proof fn lemma_first_strong_match_found(entries: Seq<(u128, ChunkNumber)>, q: u128)
    ensures
        match first_strong_match(entries, q) {
            Some(e) => entries.contains(e) && e.0 == q,
            None => true,
        },
    decreases entries.len(),
{
    if entries.len() > 0 {
        if entries[0].0 == q {
            assert(entries[0] == entries[0]);
        } else {
            let tail = entries.subrange(1, entries.len() as int);
            lemma_first_strong_match_found(tail, q);
            if let Some(e) = first_strong_match(tail, q) {
                let j = choose|j: int| 0 <= j < tail.len() && tail[j] == e;
                assert(entries[j + 1] == e);
            }
        }
    }
}

/// Every entry stored in the index under `w` names a chunk below `n` whose
/// strong hash is the stored hash and whose weak checksum is `w`.
proof fn lemma_index_entries_member<R: RollingChecksum, S: StrongHash>(
    content: Seq<u8>,
    chunk_size: int,
    n: int,
    w: u32,
    e: (u128, ChunkNumber),
)
    requires
        n <= 0x1_0000_0000_0000_0000,
        index_entries::<R, S>(content, chunk_size, n, w).contains(e),
    ensures
        0 <= e.1 < n,
        e.0 == S::hash_spec(chunk_bytes(content, chunk_size, e.1 as int)),
        R::checksum_spec(chunk_bytes(content, chunk_size, e.1 as int)) == w,
    decreases n,
{
    if n <= 0 {
        let j = choose|j: int|
            0 <= j < index_entries::<R, S>(content, chunk_size, n, w).len() && index_entries::<
                R,
                S,
            >(content, chunk_size, n, w)[j] == e;
    } else {
        let prev = index_entries::<R, S>(content, chunk_size, n - 1, w);
        let chunk = chunk_bytes(content, chunk_size, n - 1);
        if R::checksum_spec(chunk) == w {
            let last = (S::hash_spec(chunk), (n - 1) as ChunkNumber);
            lemma_seq_contains_push(prev, last, e);
            if e != last {
                lemma_index_entries_member::<R, S>(content, chunk_size, n - 1, w, e);
            }
        } else {
            lemma_index_entries_member::<R, S>(content, chunk_size, n - 1, w, e);
        }
    }
}

/// Applying a concatenation of token streams: the first error wins, and
/// two successes concatenate.
proof fn lemma_patch_tokens_append<S: StrongHash>(
    old: Seq<u8>,
    chunk_size: u64,
    t1: Seq<DeltaTokenModel>,
    t2: Seq<DeltaTokenModel>,
)
    ensures
        spec_patch_tokens::<S>(old, chunk_size, t1 + t2) == (match spec_patch_tokens::<S>(
            old,
            chunk_size,
            t1,
        ) {
            Err(e) => Err::<Seq<u8>, PatchError>(e),
            Ok(b1) => match spec_patch_tokens::<S>(old, chunk_size, t2) {
                Err(e) => Err::<Seq<u8>, PatchError>(e),
                Ok(b2) => Ok::<Seq<u8>, PatchError>(b1 + b2),
            },
        }),
    decreases t1.len(),
{
    if t1.len() == 0 {
        assert(t1 + t2 =~= t2);
        if let Ok(b2) = spec_patch_tokens::<S>(old, chunk_size, t2) {
            assert(Seq::<u8>::empty() + b2 =~= b2);
        }
    } else {
        let rest1 = t1.subrange(1, t1.len() as int);
        assert((t1 + t2)[0] == t1[0]);
        assert((t1 + t2).subrange(1, (t1 + t2).len() as int) =~= rest1 + t2);
        lemma_patch_tokens_append::<S>(old, chunk_size, rest1, t2);
        // Associativity of the concatenated payloads.
        assert forall|b0: Seq<u8>, b1: Seq<u8>, b2: Seq<u8>| #[trigger] ((b0 + b1) + b2) == b0 + (
        b1 + b2) by {
            assert((b0 + b1) + b2 =~= b0 + (b1 + b2));
        }
    }
}

/// Applying the trailing `Removed` tokens writes nothing and never fails.
proof fn lemma_patch_removed_tokens<S: StrongHash>(
    old: Seq<u8>,
    chunk_size: u64,
    n: int,
    reused: Set<ChunkNumber>,
)
    ensures
        spec_patch_tokens::<S>(old, chunk_size, spec_removed_tokens(n, reused)) == Ok::<
            Seq<u8>,
            PatchError,
        >(Seq::empty()),
    decreases n,
{
    if n <= 0 {
    } else {
        lemma_patch_removed_tokens::<S>(old, chunk_size, n - 1, reused);
        let prev = spec_removed_tokens(n - 1, reused);
        if !reused.contains((n - 1) as ChunkNumber) {
            let t = DeltaTokenModel::Removed((n - 1) as ChunkNumber);
            let single = seq![t];
            assert(single.len() == 1 && single[0] == t);
            assert(prev.push(t) =~= prev + single);
            assert(single.subrange(1, 1) =~= Seq::<DeltaTokenModel>::empty());
            assert(spec_patch_tokens::<S>(old, chunk_size, Seq::<DeltaTokenModel>::empty())
                == Ok::<Seq<u8>, PatchError>(Seq::<u8>::empty()));
            assert(spec_patch_tokens::<S>(old, chunk_size, single) == Ok::<Seq<u8>, PatchError>(
                Seq::empty() + Seq::empty(),
            ));
            lemma_patch_tokens_append::<S>(old, chunk_size, prev, single);
            assert(Seq::<u8>::empty() + (Seq::<u8>::empty() + Seq::<u8>::empty())
                =~= Seq::<u8>::empty());
        }
    }
}

/// The heart of the round-trip law: when the signature describes `old` and
/// the strong hash has no collisions, applying the `Added` / `Reused` body
/// produced for the suffix of `new` starting at `left` reproduces exactly
/// that suffix.
proof fn lemma_body_reconstructs<R: RollingChecksum, S: StrongHash>(
    sig: Signature,
    old: Seq<u8>,
    new: Seq<u8>,
    left: int,
)
    requires
        signature_matches::<R, S>(sig, old),
        forall|a: Seq<u8>, b: Seq<u8>|
            #[trigger] S::hash_spec(a) == #[trigger] S::hash_spec(b) ==> a == b,
        0 <= left <= new.len(),
    ensures
        spec_patch_tokens::<S>(
            old,
            sig.spec_chunk_size() as u64,
            spec_delta_body::<R, S>(sig, new, left),
        ) == Ok::<Seq<u8>, PatchError>(new.subrange(left, new.len() as int)),
    decreases new.len() - left,
{
    let cs = sig.spec_chunk_size() as int;
    let cs64 = sig.spec_chunk_size() as u64;
    let cc = sig.spec_chunk_count() as int;
    lemma_find_match_from_bounds::<R, S>(sig, new, left);
    match find_match_from::<R, S>(sig, new, left) {
        None => {
            if left < new.len() {
                let tail = new.subrange(left, new.len() as int);
                let single = seq![DeltaTokenModel::Added(tail)];
                assert(single.len() == 1 && single[0] == DeltaTokenModel::Added(tail));
                assert(single.subrange(1, 1) =~= Seq::<DeltaTokenModel>::empty());
                assert(spec_patch_tokens::<S>(old, cs64, Seq::<DeltaTokenModel>::empty())
                    == Ok::<Seq<u8>, PatchError>(Seq::<u8>::empty()));
                assert(spec_patch_tokens::<S>(old, cs64, single) == Ok::<Seq<u8>, PatchError>(
                    tail + Seq::<u8>::empty(),
                ));
                assert(tail + Seq::<u8>::empty() =~= tail);
            } else {
                assert(spec_patch_tokens::<S>(old, cs64, Seq::<DeltaTokenModel>::empty())
                    == Ok::<Seq<u8>, PatchError>(Seq::<u8>::empty()));
                assert(new.subrange(left, new.len() as int) =~= Seq::<u8>::empty());
            }
        },
        Some(m) => {
            let pos = m.0;
            let hash = m.1.0;
            let number = m.1.1;
            let matched_end = window_end(new, cs, pos);
            let window = window_at(new, cs, pos);

            // The matched entry comes from the index, so it names a real
            // chunk of the old content with the stored hash.
            let checksum = R::checksum_spec(window);
            assert(sig.index().dom().contains(checksum));
            let entries = sig.index()[checksum];
            lemma_first_strong_match_found(entries, S::hash_spec(window));
            assert(entries == index_entries::<R, S>(old, cs, cc, checksum));
            lemma_index_entries_member::<R, S>(old, cs, cc, checksum, (hash, number));
            assert(hash == S::hash_spec(chunk_bytes(old, cs, number as int)));
            assert(hash == S::hash_spec(window));
            // No collisions: the window really is that old chunk.
            assert(window == chunk_bytes(old, cs, number as int));
            assert(number < cc);

            // Apply the three pieces of the body in turn.
            let prefix: Seq<DeltaTokenModel> = if pos > left {
                seq![DeltaTokenModel::Added(new.subrange(left, pos))]
            } else {
                Seq::empty()
            };
            let reused_tok = seq![DeltaTokenModel::Reused(number, hash)];
            lemma_body_reconstructs::<R, S>(sig, old, new, matched_end);
            let rest_body = spec_delta_body::<R, S>(sig, new, matched_end);

            assert(spec_num_chunks(old.len() as int, cs64 as int) == cc);
            assert(chunk_bytes(old, cs64 as int, number as int) == chunk_bytes(
                old,
                cs,
                number as int,
            ));
            assert(reused_tok.len() == 1 && reused_tok[0] == DeltaTokenModel::Reused(
                number,
                hash,
            ));
            assert(reused_tok.subrange(1, 1) =~= Seq::<DeltaTokenModel>::empty());
            assert(spec_patch_tokens::<S>(old, cs64, Seq::<DeltaTokenModel>::empty())
                == Ok::<Seq<u8>, PatchError>(Seq::<u8>::empty()));
            assert(spec_patch_tokens::<S>(old, cs64, reused_tok) == Ok::<Seq<u8>, PatchError>(
                window + Seq::<u8>::empty(),
            ));
            if pos > left {
                assert(prefix.len() == 1 && prefix[0] == DeltaTokenModel::Added(
                    new.subrange(left, pos),
                ));
                assert(prefix.subrange(1, 1) =~= Seq::<DeltaTokenModel>::empty());
                assert(spec_patch_tokens::<S>(old, cs64, prefix) == Ok::<Seq<u8>, PatchError>(
                    new.subrange(left, pos) + Seq::<u8>::empty(),
                ));
            }
            lemma_patch_tokens_append::<S>(old, cs64, reused_tok, rest_body);
            lemma_patch_tokens_append::<S>(old, cs64, prefix, reused_tok + rest_body);
            assert(prefix + reused_tok + rest_body =~= prefix + (reused_tok + rest_body));

            // The three reconstructed pieces concatenate to the suffix.
            assert(window == new.subrange(pos, matched_end));
            if pos > left {
                assert((new.subrange(left, pos) + Seq::<u8>::empty()) + ((window + Seq::<
                    u8,
                >::empty()) + new.subrange(matched_end, new.len() as int)) =~= new.subrange(
                    left,
                    new.len() as int,
                ));
            } else {
                assert(Seq::<u8>::empty() + ((window + Seq::<u8>::empty()) + new.subrange(
                    matched_end,
                    new.len() as int,
                )) =~= new.subrange(left, new.len() as int));
            }
        },
    }
}

/// The round-trip law: for a signature that describes the old content and
/// a strong hash with no collisions, patching the old content with the
/// token stream generated for any new content succeeds and reproduces the
/// new content exactly.
pub proof fn lemma_round_trip<R: RollingChecksum, S: StrongHash>(
    sig: Signature,
    old: Seq<u8>,
    new: Seq<u8>,
    delta: Delta,
)
    requires
        signature_matches::<R, S>(sig, old),
        sig.spec_version() == CONTENT_VERSION,
        delta.chunk_size == sig.spec_chunk_size() as u64,
        delta.base_content_version == sig.spec_version(),
        tokens_model(delta.tokens@) == spec_delta_tokens::<R, S>(sig, new),
        forall|a: Seq<u8>, b: Seq<u8>|
            #[trigger] S::hash_spec(a) == #[trigger] S::hash_spec(b) ==> a == b,
    ensures
        spec_patch::<S>(old, delta) == Ok::<Seq<u8>, PatchError>(new),
{
    let cs64 = sig.spec_chunk_size() as u64;
    let body = spec_delta_body::<R, S>(sig, new, 0);
    let removed = spec_removed_tokens(sig.spec_chunk_count() as int, spec_reused_set(body));
    lemma_body_reconstructs::<R, S>(sig, old, new, 0);
    lemma_patch_removed_tokens::<S>(old, cs64, sig.spec_chunk_count() as int, spec_reused_set(body));
    lemma_patch_tokens_append::<S>(old, cs64, body, removed);
    assert(new.subrange(0, new.len() as int) =~= new);
    assert(new + Seq::<u8>::empty() =~= new);
}

proof fn lemma_removed_tokens_contains(n: int, reused: Set<ChunkNumber>, c: ChunkNumber)
    requires
        n <= 0x1_0000_0000_0000_0000,
    ensures
        spec_removed_tokens(n, reused).contains(DeltaTokenModel::Removed(c)) <==> (c < n
            && !reused.contains(c)),
    decreases n,
{
    if n > 0 {
        lemma_removed_tokens_contains(n - 1, reused, c);
        let prev = spec_removed_tokens(n - 1, reused);
        if !reused.contains((n - 1) as ChunkNumber) {
            lemma_seq_contains_push(
                prev,
                DeltaTokenModel::Removed((n - 1) as ChunkNumber),
                DeltaTokenModel::Removed(c),
            );
        }
    }
}

proof fn lemma_reused_set_append(t1: Seq<DeltaTokenModel>, t2: Seq<DeltaTokenModel>)
    ensures
        spec_reused_set(t1 + t2) == spec_reused_set(t1).union(spec_reused_set(t2)),
    decreases t2.len(),
{
    if t2.len() == 0 {
        assert(t1 + t2 =~= t1);
        assert(spec_reused_set(t1).union(spec_reused_set(t2)) =~= spec_reused_set(t1));
    } else {
        let shorter = t2.drop_last();
        lemma_reused_set_append(t1, shorter);
        assert((t1 + t2).drop_last() =~= t1 + shorter);
        assert((t1 + t2).last() == t2.last());
        match t2.last() {
            DeltaTokenModel::Reused(c, _) => {
                assert(spec_reused_set(t1).union(spec_reused_set(shorter)).insert(c)
                    =~= spec_reused_set(t1).union(spec_reused_set(shorter).insert(c)));
            },
            _ => {},
        }
    }
}

/// Every chunk number named by a `Reused` token of the generated body is a
/// real chunk number of the signature.
proof fn lemma_body_reused_in_range<R: RollingChecksum, S: StrongHash>(
    sig: Signature,
    old: Seq<u8>,
    new: Seq<u8>,
    left: int,
)
    requires
        signature_matches::<R, S>(sig, old),
        0 <= left <= new.len(),
    ensures
        forall|c: ChunkNumber|
            #[trigger] spec_reused_set(spec_delta_body::<R, S>(sig, new, left)).contains(c)
                ==> c < sig.spec_chunk_count(),
    decreases new.len() - left,
{
    let cs = sig.spec_chunk_size() as int;
    let cc = sig.spec_chunk_count() as int;
    lemma_find_match_from_bounds::<R, S>(sig, new, left);
    match find_match_from::<R, S>(sig, new, left) {
        None => {
            if left < new.len() {
                let single = seq![DeltaTokenModel::Added(new.subrange(left, new.len() as int))];
                assert(single.len() == 1 && single.last() == DeltaTokenModel::Added(
                    new.subrange(left, new.len() as int),
                ));
                assert(single.drop_last() =~= Seq::<DeltaTokenModel>::empty());
                assert(spec_reused_set(Seq::<DeltaTokenModel>::empty())
                    =~= Set::<ChunkNumber>::empty());
                assert(spec_reused_set(single) =~= Set::<ChunkNumber>::empty());
            }
        },
        Some(m) => {
            let pos = m.0;
            let hash = m.1.0;
            let number = m.1.1;
            let matched_end = window_end(new, cs, pos);
            let window = window_at(new, cs, pos);
            let checksum = R::checksum_spec(window);
            lemma_first_strong_match_found(sig.index()[checksum], S::hash_spec(window));
            lemma_index_entries_member::<R, S>(old, cs, cc, checksum, (hash, number));
            lemma_body_reused_in_range::<R, S>(sig, old, new, matched_end);
            let prefix: Seq<DeltaTokenModel> = if pos > left {
                seq![DeltaTokenModel::Added(new.subrange(left, pos))]
            } else {
                Seq::empty()
            };
            let reused_tok = seq![DeltaTokenModel::Reused(number, hash)];
            let rest = spec_delta_body::<R, S>(sig, new, matched_end);
            lemma_reused_set_append(prefix + reused_tok, rest);
            lemma_reused_set_append(prefix, reused_tok);
            assert(spec_reused_set(Seq::<DeltaTokenModel>::empty())
                =~= Set::<ChunkNumber>::empty());
            if pos > left {
                assert(prefix.len() == 1 && prefix.last() == DeltaTokenModel::Added(
                    new.subrange(left, pos),
                ));
                assert(prefix.drop_last() =~= Seq::<DeltaTokenModel>::empty());
                assert(spec_reused_set(prefix) =~= Set::<ChunkNumber>::empty());
            }
            assert(reused_tok.len() == 1 && reused_tok.last() == DeltaTokenModel::Reused(
                number,
                hash,
            ));
            assert(reused_tok.drop_last() =~= Seq::<DeltaTokenModel>::empty());
            assert(spec_reused_set(reused_tok) =~= Set::<ChunkNumber>::empty().insert(number));
        },
    }
}

/// Token completeness: the `Reused` chunk numbers all lie below the chunk
/// count, and the trailing `Removed` tokens enumerate exactly the chunk
/// numbers that no `Reused` token names.
pub proof fn lemma_token_completeness<R: RollingChecksum, S: StrongHash>(
    sig: Signature,
    old: Seq<u8>,
    new: Seq<u8>,
)
    requires
        signature_matches::<R, S>(sig, old),
    ensures
        ({
            let body = spec_delta_body::<R, S>(sig, new, 0);
            let reused = spec_reused_set(body);
            let removed = spec_removed_tokens(sig.spec_chunk_count() as int, reused);
            &&& forall|c: ChunkNumber| #[trigger] reused.contains(c) ==> c < sig.spec_chunk_count()
            &&& forall|c: ChunkNumber|
                c < sig.spec_chunk_count() ==> (#[trigger] removed.contains(
                    DeltaTokenModel::Removed(c),
                ) <==> !reused.contains(c))
        }),
{
    lemma_body_reused_in_range::<R, S>(sig, old, new, 0);
    let body = spec_delta_body::<R, S>(sig, new, 0);
    let reused = spec_reused_set(body);
    assert forall|c: ChunkNumber| c < sig.spec_chunk_count() implies (
    #[trigger] spec_removed_tokens(sig.spec_chunk_count() as int, reused).contains(
        DeltaTokenModel::Removed(c),
    ) <==> !reused.contains(c)) by {
        lemma_removed_tokens_contains(sig.spec_chunk_count() as int, reused, c);
    }
}

proof fn lemma_index_entries_cover<R: RollingChecksum, S: StrongHash>(
    content: Seq<u8>,
    chunk_size: int,
    n: int,
    i: int,
)
    requires
        0 <= i < n <= 0x1_0000_0000_0000_0000,
    ensures
        index_entries::<R, S>(
            content,
            chunk_size,
            n,
            R::checksum_spec(chunk_bytes(content, chunk_size, i)),
        ).contains((S::hash_spec(chunk_bytes(content, chunk_size, i)), i as ChunkNumber)),
    decreases n,
{
    let chunk = chunk_bytes(content, chunk_size, i);
    let w = R::checksum_spec(chunk);
    let entry = (S::hash_spec(chunk), i as ChunkNumber);
    let prev = index_entries::<R, S>(content, chunk_size, n - 1, w);
    let last_chunk = chunk_bytes(content, chunk_size, n - 1);
    if i == n - 1 {
        lemma_seq_contains_push(prev, entry, entry);
    } else {
        lemma_index_entries_cover::<R, S>(content, chunk_size, n - 1, i);
        if R::checksum_spec(last_chunk) == w {
            lemma_seq_contains_push(
                prev,
                (S::hash_spec(last_chunk), (n - 1) as ChunkNumber),
                entry,
            );
        }
    }
}

/// The signature invariant: every chunk of the content contributes its
/// entry to the index, under its own weak checksum, with its own strong
/// hash and chunk number.
pub proof fn lemma_signature_covers_chunks<R: RollingChecksum, S: StrongHash>(
    sig: Signature,
    old: Seq<u8>,
    i: int,
)
    requires
        signature_matches::<R, S>(sig, old),
        0 <= i < sig.spec_chunk_count(),
    ensures
        ({
            let chunk = chunk_bytes(old, sig.spec_chunk_size() as int, i);
            let w = R::checksum_spec(chunk);
            &&& sig.index().dom().contains(w)
            &&& sig.index()[w].contains((S::hash_spec(chunk), i as ChunkNumber))
        }),
{
    let cs = sig.spec_chunk_size() as int;
    let cc = sig.spec_chunk_count() as int;
    let chunk = chunk_bytes(old, cs, i);
    let w = R::checksum_spec(chunk);
    lemma_index_entries_cover::<R, S>(old, cs, cc, i);
    let entries = index_entries::<R, S>(old, cs, cc, w);
    let j = choose|j: int| 0 <= j < entries.len() && entries[j] == (
        S::hash_spec(chunk),
        i as ChunkNumber,
    );
    assert(entries.len() > 0);
}

/// Generating a signature is deterministic: two signatures built from the
/// same content with the same chunk size agree on everything the library
/// observes about them.
pub proof fn lemma_signature_deterministic<R: RollingChecksum, S: StrongHash>(
    first: Signature,
    second: Signature,
    old: Seq<u8>,
)
    requires
        signature_matches::<R, S>(first, old),
        signature_matches::<R, S>(second, old),
        first.spec_chunk_size() == second.spec_chunk_size(),
        first.spec_version() == second.spec_version(),
    ensures
        first.spec_chunk_count() == second.spec_chunk_count(),
        first.index() == second.index(),
{
    assert forall|w: u32| first.index().dom().contains(w) <==> second.index().dom().contains(
        w,
    ) by {
        let cs = first.spec_chunk_size() as int;
        let cc = first.spec_chunk_count() as int;
        assert(first.index().dom().contains(w) <==> index_entries::<R, S>(old, cs, cc, w).len()
            > 0);
        assert(second.index().dom().contains(w) <==> index_entries::<R, S>(old, cs, cc, w).len()
            > 0);
    }
    assert forall|w: u32| first.index().dom().contains(w) implies first.index()[w]
        == second.index()[w] by {
        let cs = first.spec_chunk_size() as int;
        let cc = first.spec_chunk_count() as int;
        assert(first.index()[w] == index_entries::<R, S>(old, cs, cc, w));
        assert(second.index()[w] == index_entries::<R, S>(old, cs, cc, w));
    }
    assert(first.index() =~= second.index());
}

/// Generating a delta is deterministic: any two deltas whose token streams
/// are the generated stream for the same signature and new content are the
/// same delta, field for field.
pub proof fn lemma_delta_deterministic<R: RollingChecksum, S: StrongHash>(
    sig: Signature,
    new: Seq<u8>,
    first: Delta,
    second: Delta,
)
    requires
        tokens_model(first.tokens@) == spec_delta_tokens::<R, S>(sig, new),
        tokens_model(second.tokens@) == spec_delta_tokens::<R, S>(sig, new),
        first.chunk_size == sig.spec_chunk_size() as u64,
        second.chunk_size == sig.spec_chunk_size() as u64,
        first.base_content_version == sig.spec_version(),
        second.base_content_version == sig.spec_version(),
    ensures
        tokens_model(first.tokens@) == tokens_model(second.tokens@),
        first.chunk_size == second.chunk_size,
        first.base_content_version == second.base_content_version,
{
}

} // verus!

