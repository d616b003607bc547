use rolling_in_the_diff::rolling_checksum::rolling_adler32::RollingAdler32;
use rolling_in_the_diff::rolling_checksum::RollingChecksum;
use rolling_in_the_diff::signature_generation::generate_signature;
use rolling_in_the_diff::strong_hash::md5::Md5Sum;
use rolling_in_the_diff::strong_hash::StrongHash;
use rolling_in_the_diff::ChunkNumber;

#[test]
fn test_generate_signature_of_empty_content() {
    let content: &[u8] = &[];
    let signature = generate_signature::<RollingAdler32, Md5Sum>(content);
    assert_eq!(signature.chunk_count(), 0);
    assert_eq!(signature.chunk_size(), 0);
    assert!(signature.index_len() == 0);
}

struct DummyRolling {}

const DUMMY_CHECKSUM: u32 = 69;

impl RollingChecksum for DummyRolling {
    // The first three items are specification-only: nothing ever calls
    // them at run time.
    fn wf(&self) -> bool {
        unreachable!()
    }
    fn window(&self) -> vstd::seq::Seq<u8> {
        unreachable!()
    }
    fn checksum_spec(_: vstd::seq::Seq<u8>) -> u32 {
        unreachable!()
    }
    fn new(_: &[u8]) -> Self {
        Self {}
    }
    fn checksum(&self) -> u32 {
        DUMMY_CHECKSUM
    }
    fn push_byte(&mut self, _: u8) {}
    fn pop_byte(&mut self, _: u8, _: usize) {}
}

struct DummyHash {}

impl StrongHash for DummyHash {
    // Specification-only: never called at run time.
    fn hash_spec(_: vstd::seq::Seq<u8>) -> u128 {
        unreachable!()
    }
    fn hash(_: &[u8]) -> u128 {
        420
    }
}

#[test]
fn test_generate_signature_with_repeating_checksums() {
    let content = [0; 420];

    let signature = generate_signature::<DummyRolling, DummyHash>(&content);

    assert!(signature.chunk_count() > 1);
    assert_eq!(signature.index_len(), 1);
    assert_eq!(
        signature.quick_query(&DUMMY_CHECKSUM).unwrap().len(),
        signature.chunk_count()
    );
}

fn check_signature_covers_chunks(content: &[u8], at_least_chunk_count: usize) {
    let signature = generate_signature::<RollingAdler32, Md5Sum>(content);

    assert!(
        signature.chunk_count() >= at_least_chunk_count,
        "{} < {}",
        signature.chunk_count(),
        at_least_chunk_count
    );
    for (chunk_number, chunk) in content.chunks(signature.chunk_size()).enumerate() {
        let checksum = adler32::RollingAdler32::from_buffer(chunk).hash();
        let entries = signature
            .quick_query(&checksum)
            .expect("every chunk's weak checksum must be in the index");
        assert!(entries.contains(&(Md5Sum::hash(chunk), chunk_number as ChunkNumber)));
    }
}

#[test]
fn test_generate_signature_when_content_is_small_and_even() {
    let content: Vec<u8> = (0..10u32).map(|x| x as u8).collect();
    check_signature_covers_chunks(&content, 1);
}

#[test]
fn test_generate_signature_when_content_is_small_and_odd() {
    let content: Vec<u8> = (0..9u32).map(|x| x as u8).collect();
    check_signature_covers_chunks(&content, 1);
}

#[test]
fn test_generate_signature_when_content_is_big_enough_for_multiple_chunks() {
    let content: Vec<u8> = (0..(1u32 << 10)).map(|x| x as u8).collect();
    check_signature_covers_chunks(&content, 2);
}

#[test]
fn test_determine_chunk_size_when_overhead_dominates() {
    // When the index overhead would outweigh the content, use one chunk.
    assert_eq!(
        rolling_in_the_diff::signature_generation::determine_chunk_size(6),
        6
    );
}

#[test]
fn test_determine_chunk_size_scales_with_content() {
    // 20 overheads' worth of content: the next smaller power of two is 16.
    let overhead = 4 + 16 + 8;
    let content_len = 20 * overhead;
    assert_eq!(
        rolling_in_the_diff::signature_generation::determine_chunk_size(content_len),
        content_len / 16
    );
}
