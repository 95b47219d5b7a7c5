use deduplicator::hash::{md5_digest, sha256_digest, to_upper_hex, Md5Hasher, Sha256Hasher};

#[test]
fn test_sha256() {
    let digest = sha256_digest(b"m71-2014");
    println!("{}", digest);
}

#[test]
fn test_md5() {
    let digest = md5_digest(b"m71-2014");
    println!("{}", digest);
}

#[test]
fn md5_known_vectors() {
    assert_eq!(md5_digest(b""), "D41D8CD98F00B204E9800998ECF8427E");
    assert_eq!(md5_digest(b"hello"), "5D41402ABC4B2A76B9719D911017C592");
}

#[test]
fn sha256_known_vectors() {
    assert_eq!(
        sha256_digest(b""),
        "E3B0C44298FC1C149AFBF4C8996FB92427AE41E4649B934CA495991B7852B855"
    );
    assert_eq!(
        sha256_digest(b"hello"),
        "2CF24DBA5FB0A30E26E83B2AC5B9E29E1B161E5C1FA7425E73043362938B9824"
    );
}

#[test]
fn digest_determinism_and_sensitivity() {
    let once = md5_digest(b"some file content");
    let twice = md5_digest(b"some file content");
    assert_eq!(once, twice);
    let changed = md5_digest(b"some file content!");
    assert_ne!(once, changed);
    let s_once = sha256_digest(b"some file content");
    let s_twice = sha256_digest(b"some file content");
    assert_eq!(s_once, s_twice);
    assert_ne!(s_once, sha256_digest(b"some file contenu"));
}

#[test]
fn streaming_matches_whole_content() {
    let mut md5 = Md5Hasher::new();
    md5.update(b"hel");
    md5.update(b"lo");
    assert_eq!(md5.finalize_hex(), md5_digest(b"hello"));
    let mut sha = Sha256Hasher::new();
    sha.update(b"he");
    sha.update(b"l");
    sha.update(b"lo");
    assert_eq!(sha.finalize_hex(), sha256_digest(b"hello"));
}

#[test]
fn upper_hex_renders_two_digits_per_byte() {
    assert_eq!(to_upper_hex(&[]), "");
    assert_eq!(to_upper_hex(&[0x00, 0x0F, 0xA5, 0xFF]), "000FA5FF");
}
