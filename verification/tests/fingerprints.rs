use bulk_rename::hash::{hash_bytes, HashType};

#[test]
fn fingerprints_of_abc() {
    assert_eq!(hash_bytes(b"abc", HashType::MD5), "\"kAFQmDzST7DWlj99KOF/cg==\"");
    assert_eq!(hash_bytes(b"abc", HashType::Sha1), "\"qZk+NkcGgWq6PiVxeFDCbJzQ2J0=\"");
    assert_eq!(
        hash_bytes(b"abc", HashType::Sha256),
        "\"ungWv48Bz+pBQUDeXa4iI7ADYaOWF3qctBD/YfIAFa0=\""
    );
    assert_eq!(
        hash_bytes(b"abc", HashType::Sha512),
        "\"3a81oZNherrMQXNJriBBMRLm+k6JqX6iCp7u5ktV05ohkpkqJ0/BqDa6PCOj/uu9RU1EI2Q86A4qmslPpUyknw==\""
    );
}

#[test]
fn fingerprints_of_nothing() {
    assert_eq!(hash_bytes(b"", HashType::MD5), "\"1B2M2Y8AsgTpgAmY7PhCfg==\"");
    assert_eq!(hash_bytes(b"", HashType::Sha256), "\"47DEQpj8HBSa+/TImW+5JCeuQeRkm5NMpJWZG3hSuFU=\"");
}

#[test]
fn fingerprint_lengths() {
    let data = vec![7u8; 5000];
    assert_eq!(hash_bytes(&data, HashType::MD5).len(), 26);
    assert_eq!(hash_bytes(&data, HashType::Sha1).len(), 30);
    assert_eq!(hash_bytes(&data, HashType::Sha256).len(), 46);
    assert_eq!(hash_bytes(&data, HashType::Sha512).len(), 90);
}

#[test]
fn fingerprint_text_is_quoted_base64() {
    for data in [&b""[..], &b"a"[..], &b"ab"[..], &b"\xff\xfe\x00"[..]] {
        for mode in [HashType::MD5, HashType::Sha1, HashType::Sha256, HashType::Sha512] {
            let r = hash_bytes(data, mode);
            assert!(r.starts_with('"') && r.ends_with('"'));
            let inner = &r[1..r.len() - 1];
            assert!(inner
                .chars()
                .all(|c| c.is_ascii_alphanumeric() || c == '+' || c == '/' || c == '='));
        }
    }
}
