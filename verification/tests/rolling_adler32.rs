use rolling_in_the_diff::rolling_checksum::rolling_adler32::RollingAdler32;
use rolling_in_the_diff::rolling_checksum::RollingChecksum;

#[test]
fn test_checksum_sliding_window() {
    let data = [0, 1, 2, 3, 4, 5, 6, 7, 8, 9];
    let window_size = 3;

    let mut rolling_checksum = RollingAdler32::new(&data[..window_size]);

    let mut left = 0;
    for right in window_size..data.len() {
        assert_eq!(
            rolling_checksum.checksum(),
            adler32::adler32(&data[left..right]).unwrap()
        );
        rolling_checksum.pop_byte(data[left], window_size);
        rolling_checksum.push_byte(data[right]);
        left += 1;
    }

    // slide the left part of the window until all the data is consumed
    while left < data.len() {
        assert_eq!(
            rolling_checksum.checksum(),
            adler32::adler32(&data[left..]).unwrap()
        );
        rolling_checksum.pop_byte(data[left], data.len() - left);
        left += 1;
    }
}

#[test]
fn adler32_test_checksum_sliding_window() {
    let data = [1, 2, 3, 4, 5, 6, 7, 8, 9, 10];

    let mut rolling_checksum = RollingAdler32::new(&data[..3]);

    let mut left = 0;
    for right in 3..data.len() - 1 {
        assert_eq!(
            rolling_checksum.checksum(),
            adler32::adler32(&data[left..right]).unwrap()
        );
        rolling_checksum.pop_byte(data[left], 3);
        rolling_checksum.push_byte(data[right]);
        left += 1;
    }
}

#[test]
fn test_checksum_of_empty_window() {
    let rolling_checksum = RollingAdler32::new(&[]);
    assert_eq!(
        rolling_checksum.checksum(),
        adler32::adler32(&[] as &[u8]).unwrap()
    );
    assert_eq!(rolling_checksum.checksum(), 1);
}

#[test]
fn test_checksum_matches_reference_on_full_buffer() {
    let data: Vec<u8> = (0..255).collect();
    let rolling_checksum = RollingAdler32::new(&data);
    assert_eq!(
        rolling_checksum.checksum(),
        adler32::adler32(data.as_slice()).unwrap()
    );
}

#[test]
fn test_checksum_depends_on_byte_order() {
    let forward = RollingAdler32::new(&[1, 2, 3, 4]);
    let backward = RollingAdler32::new(&[4, 3, 2, 1]);
    assert_ne!(forward.checksum(), backward.checksum());
}
