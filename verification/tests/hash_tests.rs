use a2l_editor::hash::{compute_file_hash, format_file_size};

#[test]
fn test_format_file_size() {
    assert_eq!(format_file_size(500), "500 B");
    assert_eq!(format_file_size(1024), "1.00 KB");
    assert_eq!(format_file_size(1024 * 1024), "1.00 MB");
    assert_eq!(format_file_size(1024 * 1024 * 1024), "1.00 GB");
}

#[test]
fn file_size_rounds_to_two_places() {
    assert_eq!(format_file_size(0), "0 B");
    assert_eq!(format_file_size(1023), "1023 B");
    assert_eq!(format_file_size(1536), "1.50 KB");
    assert_eq!(format_file_size(1025), "1.00 KB");
    assert_eq!(format_file_size(1030), "1.01 KB");
    // 1152 / 1024 = 1.125, a tie that goes to the even hundredth.
    assert_eq!(format_file_size(1152), "1.12 KB");
    // 1172 / 1024 = 1.14453125
    assert_eq!(format_file_size(1172), "1.14 KB");
    assert_eq!(format_file_size(1048575), "1024.00 KB");
    assert_eq!(format_file_size(5 * 1024 * 1024 + 512 * 1024), "5.50 MB");
    assert_eq!(format_file_size(u64::MAX), "17179869184.00 GB");
}

#[test]
fn file_hash_is_sha256_of_sample_size_and_time() {
    // SHA-256 of sixteen zero bytes: no sample, size 0, time 0.
    assert_eq!(
        compute_file_hash(&[], 0, 0),
        "374708fff7719dd5979ec875d56cd2286f6d3cf7ec317a3b25632aab28ec37bb"
    );
    let a = compute_file_hash(b"abc", 3, 1);
    let b = compute_file_hash(b"abc", 3, 2);
    assert_eq!(a.len(), 64);
    assert_ne!(a, b);
    assert!(a.chars().all(|c| c.is_ascii_hexdigit() && !c.is_ascii_uppercase()));
}
