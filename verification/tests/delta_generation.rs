use rolling_in_the_diff::delta_generation::{generate_delta, DeltaToken};
use rolling_in_the_diff::rolling_checksum::rolling_adler32::RollingAdler32;
use rolling_in_the_diff::signature_generation::{
    generate_signature, generate_signature_with_chunk_size,
};
use rolling_in_the_diff::strong_hash::md5::Md5Sum;
use rolling_in_the_diff::strong_hash::StrongHash;

fn delta_tokens(chunk_size: usize, old_content: &[u8], new_content: &[u8]) -> Vec<DeltaToken> {
    let signature =
        generate_signature_with_chunk_size::<RollingAdler32, Md5Sum>(old_content, chunk_size);
    generate_delta::<RollingAdler32, Md5Sum>(&signature, new_content).tokens
}

#[test]
fn test_generate_delta_when_chunks_are_perfectly_aligned() {
    assert_eq!(
        delta_tokens(3, &[1, 2, 3, 4, 5, 6], &[0, 1, 2, 4, 5, 6]),
        vec![
            DeltaToken::Added(vec![0, 1, 2]),
            DeltaToken::Reused(1, Md5Sum::hash(&[4, 5, 6])),
            DeltaToken::Removed(0),
        ]
    );
}

#[test]
fn test_generate_delta_when_last_chunk_is_not_full() {
    assert_eq!(
        delta_tokens(3, &[1, 2, 3, 4, 5], &[0, 1, 2, 4, 5]),
        vec![
            DeltaToken::Added(vec![0, 1, 2]),
            DeltaToken::Reused(1, Md5Sum::hash(&[4, 5])),
            DeltaToken::Removed(0),
        ]
    );
}

#[test]
fn test_generate_delta_when_full_chunks_are_swapped() {
    assert_eq!(
        delta_tokens(3, &[1, 2, 3, 4, 5, 6], &[4, 5, 6, 1, 2, 3]),
        vec![
            DeltaToken::Reused(1, Md5Sum::hash(&[4, 5, 6])),
            DeltaToken::Reused(0, Md5Sum::hash(&[1, 2, 3])),
        ]
    );
}

#[test]
fn test_generate_delta_when_chunks_are_swapped_with_a_non_full_chunk() {
    assert_eq!(
        delta_tokens(3, &[1, 2, 3, 4, 5], &[4, 5, 1, 2, 3]),
        vec![
            DeltaToken::Added(vec![4, 5]),
            DeltaToken::Reused(0, Md5Sum::hash(&[1, 2, 3])),
            DeltaToken::Removed(1),
        ]
    );
}

#[test]
fn test_generate_delta_when_new_content_is_empty() {
    assert_eq!(
        delta_tokens(3, &[1, 2, 3], &[]),
        vec![DeltaToken::Removed(0)]
    );
}

#[test]
fn test_generate_delta_with_empty_old_signature() {
    let signature = generate_signature::<RollingAdler32, Md5Sum>(&[]);

    let new_content = [1, 2, 3];

    let delta = generate_delta::<RollingAdler32, Md5Sum>(&signature, &new_content);

    let expected_tokens = vec![DeltaToken::Added(vec![1, 2, 3])];

    assert_eq!(delta.tokens.len(), expected_tokens.len());
    delta
        .tokens
        .iter()
        .zip(expected_tokens.iter())
        .for_each(|(actual, expected)| assert_eq!(actual, expected));
}

#[test]
fn test_generate_delta_carries_chunk_size_and_version() {
    let signature = generate_signature_with_chunk_size::<RollingAdler32, Md5Sum>(&[1, 2, 3, 4], 2);
    let delta = generate_delta::<RollingAdler32, Md5Sum>(&signature, &[1, 2, 3, 4]);
    assert_eq!(delta.chunk_size, 2);
    assert_eq!(delta.base_content_version, signature.version());
}

#[test]
fn test_generate_delta_reuses_one_old_chunk_twice() {
    assert_eq!(
        delta_tokens(2, &[7, 8], &[7, 8, 7, 8]),
        vec![
            DeltaToken::Reused(0, Md5Sum::hash(&[7, 8])),
            DeltaToken::Reused(0, Md5Sum::hash(&[7, 8])),
        ]
    );
}

#[test]
fn test_md5_hash_matches_reference_digest() {
    let digest = u128::from_le_bytes(md5::compute([4, 5, 6]).into());
    assert_eq!(Md5Sum::hash(&[4, 5, 6]), digest);
    assert_ne!(Md5Sum::hash(&[4, 5, 6]), Md5Sum::hash(&[6, 5, 4]));
}
