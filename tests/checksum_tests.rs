use multimoon::checksum::{digest, digest_matches, fingerprint_text, is_supported, verify};

#[test]
fn digest_of_hello() {
    assert_eq!(
        digest(b"hello"),
        "sha256:2cf24dba5fb0a30e26e83b2ac5b9e29e1b161e5c1fa7425e73043362938b9824"
    );
}

#[test]
fn digest_of_empty_buffer() {
    assert_eq!(
        digest(b""),
        "sha256:e3b0c44298fc1c149afbf4c8996fb92427ae41e4649b934ca495991b7852b855"
    );
}

#[test]
fn fingerprint_text_is_lowercase_hex() {
    assert_eq!(fingerprint_text(&[0x00, 0xff, 0x1a, 0xB0]), "sha256:00ff1ab0");
}

#[test]
fn verify_accepts_exact_fingerprint_only() {
    let good = "sha256:2cf24dba5fb0a30e26e83b2ac5b9e29e1b161e5c1fa7425e73043362938b9824".to_string();
    let upper = "sha256:2CF24DBA5FB0A30E26E83B2AC5B9E29E1B161E5C1FA7425E73043362938B9824".to_string();
    assert!(verify(b"hello", &good));
    assert!(!verify(b"hello!", &good));
    assert!(!verify(b"hello", &upper));
}

#[test]
fn digest_matches_compares_with_declared_text() {
    assert!(digest_matches(&[1, 2], &"sha256:0102".to_string()));
    assert!(!digest_matches(&[1, 2], &"sha256:0103".to_string()));
}

#[test]
fn supported_algorithm_prefix() {
    assert!(is_supported(&"sha256:abcd".to_string()));
    assert!(is_supported(&"sha256:".to_string()));
    assert!(!is_supported(&"md5:abcd".to_string()));
    assert!(!is_supported(&"sha25".to_string()));
    assert!(!is_supported(&"SHA256:abcd".to_string()));
}
