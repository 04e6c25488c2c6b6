use thesamo::file::ScanFile;

#[test]
fn identical_content_fingerprints_equal() {
    let mut f1 = ScanFile { path: b"/tmp/a.conf".to_vec(), hash: None };
    let mut f2 = ScanFile { path: b"/tmp/b.conf".to_vec(), hash: None };
    f1.hash(b"the very same bytes");
    f2.hash(b"the very same bytes");
    assert_eq!(f1.hash, f2.hash);
    assert!(f1.hash.is_some());
}

#[test]
fn differing_content_fingerprints_differ() {
    let mut f1 = ScanFile { path: b"/tmp/a.conf".to_vec(), hash: None };
    let mut f2 = ScanFile { path: b"/tmp/a.conf".to_vec(), hash: None };
    f1.hash(b"one content");
    f2.hash(b"another content");
    assert_ne!(f1.hash, f2.hash);
}

#[test]
fn fingerprint_is_a_digest_not_the_content() {
    let mut f = ScanFile { path: b"x".to_vec(), hash: None };
    let content = b"short";
    f.hash(content);
    let digest = f.hash.clone().unwrap();
    assert_eq!(digest.len(), 32);
    assert_ne!(digest, content.to_vec());

    let mut g = ScanFile { path: b"x".to_vec(), hash: None };
    let thirty_two = b"0123456789abcdef0123456789abcdef";
    g.hash(thirty_two);
    assert_ne!(g.hash.unwrap(), thirty_two.to_vec());
}

#[test]
fn fingerprinting_twice_keeps_the_last_value() {
    let mut f = ScanFile { path: b"/tmp/a.conf".to_vec(), hash: None };
    f.hash(b"first");
    let first = f.hash.clone();
    f.hash(b"second");
    assert_ne!(f.hash, first);
    f.hash(b"first");
    assert_eq!(f.hash, first);
}
