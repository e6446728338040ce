use erunner::hash::fingerprint;

#[test]
fn fingerprint_is_stable_on_equal_content() {
    let a = fingerprint(b"the quick brown fox");
    let b = fingerprint(b"the quick brown fox");
    assert_eq!(a, b);
}

#[test]
fn fingerprint_changes_on_a_one_byte_edit() {
    let a = fingerprint(b"the quick brown fox");
    let b = fingerprint(b"the quick brown foy");
    assert_ne!(a, b);
}

#[test]
fn fingerprint_of_abc_matches_the_known_sha256_vector() {
    let got = fingerprint(b"abc");
    assert_eq!(
        got,
        "BA7816BF8F01CFEA414140DE5DAE2223B00361A396177A9CB410FF61F20015AD"
    );
}

#[test]
fn fingerprint_of_empty_content_matches_the_known_sha256_vector() {
    let got = fingerprint(b"");
    assert_eq!(
        got,
        "E3B0C44298FC1C149AFBF4C8996FB92427AE41E4649B934CA495991B7852B855"
    );
}
