use hkdl::download::{digest_matches, digests_differ, download_target, hash_verdict, hex_digests_match, HashVerdict};

const HELLO_SHA256: &str = "2cf24dba5fb0a30e26e83b2ac5b9e29e1b161e5c1fa7425e73043362938b9824";

#[test]
fn zip_links_are_archives() {
    let t = download_target("https://github.com/x/releases/download/v1/Benchwarp.zip");
    assert!(t.archive);
    assert_eq!(t.file, "temp.zip");
}

#[test]
fn other_links_keep_their_file_name() {
    let t = download_target("https://github.com/x/releases/download/v1/Benchwarp.dll");
    assert!(!t.archive);
    assert_eq!(t.file, "Benchwarp.dll");
}

#[test]
fn digest_is_checked_ignoring_case() {
    assert!(digest_matches(b"hello", HELLO_SHA256));
    assert!(digest_matches(b"hello", &HELLO_SHA256.to_uppercase()));
    assert!(!digest_matches(b"hello!", HELLO_SHA256));
    assert!(!digest_matches(b"hello", "hello"));
}

#[test]
fn hex_digests_compare_ignoring_case() {
    assert!(hex_digests_match("ABCdef", "abcDEF"));
    assert!(!hex_digests_match("abc", "abd"));
}

#[test]
fn differing_files_are_told_apart() {
    assert!(digests_differ(b"a", b"b"));
    assert!(!digests_differ(b"same", b"same"));
}

#[test]
fn mismatch_is_retried_once() {
    assert_eq!(hash_verdict(true, false), HashVerdict::Accept);
    assert_eq!(hash_verdict(true, true), HashVerdict::Accept);
    assert_eq!(hash_verdict(false, false), HashVerdict::Retry);
    assert_eq!(hash_verdict(false, true), HashVerdict::Reject);
}
