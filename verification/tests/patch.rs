use rolling_in_the_diff::delta_generation::{generate_delta, Delta, DeltaToken};
use rolling_in_the_diff::patch::{patch, PatchError};
use rolling_in_the_diff::rolling_checksum::rolling_adler32::RollingAdler32;
use rolling_in_the_diff::signature_generation::{
    generate_signature, generate_signature_with_chunk_size,
};
use rolling_in_the_diff::strong_hash::md5::Md5Sum;
use rolling_in_the_diff::strong_hash::StrongHash;

fn round_trip(old_content: &[u8], new_content: &[u8]) {
    let signature = generate_signature::<RollingAdler32, Md5Sum>(old_content);
    let delta = generate_delta::<RollingAdler32, Md5Sum>(&signature, new_content);
    let patched = patch::<Md5Sum>(old_content, delta).expect("patch must succeed");
    assert_eq!(patched.as_slice(), new_content);
}

#[test]
fn test_round_trip_with_arbitrary_contents() {
    let old_content: Vec<u8> = (0..2048u32).map(|x| (x * 7 % 251) as u8).collect();
    let mut new_content = old_content.clone();
    new_content.splice(100..100, [42, 42, 42]);
    new_content.truncate(1500);
    round_trip(&old_content, &new_content);
}

#[test]
fn test_round_trip_with_empty_old_content() {
    round_trip(&[], &[1, 2, 3]);
}

#[test]
fn test_round_trip_with_empty_new_content() {
    round_trip(&[1, 2, 3], &[]);
}

#[test]
fn test_round_trip_with_identical_contents() {
    let content: Vec<u8> = (0..512u32).map(|x| (x % 256) as u8).collect();
    round_trip(&content, &content);
}

#[test]
fn test_round_trip_with_both_empty() {
    round_trip(&[], &[]);
}

#[test]
fn test_patch_rejects_wrong_version() {
    let delta = Delta {
        tokens: vec![],
        chunk_size: 3,
        base_content_version: 77,
    };
    assert_eq!(
        patch::<Md5Sum>(&[1, 2, 3], delta),
        Err(PatchError::VersionMismatch {
            expected: 2,
            actual: 77,
        })
    );
}

#[test]
fn test_patch_rejects_chunk_out_of_bound() {
    let signature = generate_signature_with_chunk_size::<RollingAdler32, Md5Sum>(&[1, 2, 3], 3);
    let mut delta = generate_delta::<RollingAdler32, Md5Sum>(&signature, &[1, 2, 3]);
    delta.tokens = vec![DeltaToken::Reused(5, Md5Sum::hash(&[1, 2, 3]))];
    assert_eq!(
        patch::<Md5Sum>(&[1, 2, 3], delta),
        Err(PatchError::ChunkOutOfBound {
            chunk_num: 5,
            chunk_size: 3,
            old_content_len: 3,
        })
    );
}

#[test]
fn test_patch_rejects_tampered_old_content() {
    let old_content = [1, 2, 3, 4, 5, 6];
    let signature = generate_signature_with_chunk_size::<RollingAdler32, Md5Sum>(&old_content, 3);
    let delta = generate_delta::<RollingAdler32, Md5Sum>(&signature, &old_content);
    let tampered = [1, 2, 3, 4, 5, 7];
    match patch::<Md5Sum>(&tampered, delta) {
        Err(PatchError::ChunkHashMismatch { chunk_num }) => assert_eq!(chunk_num, 1),
        other => panic!("expected a hash mismatch, got {:?}", other),
    }
}

#[test]
fn test_patch_ignores_removed_tokens() {
    let old_content = [1, 2, 3, 4, 5, 6];
    let signature = generate_signature_with_chunk_size::<RollingAdler32, Md5Sum>(&old_content, 3);
    let delta = generate_delta::<RollingAdler32, Md5Sum>(&signature, &[9, 9]);
    assert_eq!(
        delta.tokens,
        vec![
            DeltaToken::Added(vec![9, 9]),
            DeltaToken::Removed(0),
            DeltaToken::Removed(1),
        ]
    );
    let patched = patch::<Md5Sum>(&old_content, delta).expect("patch must succeed");
    assert_eq!(patched, vec![9, 9]);
}
