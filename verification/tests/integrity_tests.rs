use felloe::{digest_hex, verify, Error};

// SHA-256 of the empty input.
const EMPTY_DIGEST: &str = "e3b0c44298fc1c149afbf4c8996fb92427ae41e4649b934ca495991b7852b855";

// SHA-256 of the three bytes "abc".
const ABC_DIGEST: &str = "ba7816bf8f01cfea414140de5dae2223b00361a396177a9cb410ff61f20015ad";

#[test]
fn digest_hex_matches_known_vectors() {
    assert_eq!(digest_hex(&vec![]), EMPTY_DIGEST.as_bytes().to_vec());
    assert_eq!(
        digest_hex(&b"abc".to_vec()),
        ABC_DIGEST.as_bytes().to_vec()
    );
}

#[test]
fn verify_accepts_the_exact_digest() {
    assert_eq!(verify(&b"abc".to_vec(), &ABC_DIGEST.as_bytes().to_vec()), Ok(()));
}

#[test]
fn verify_trims_surrounding_whitespace() {
    let padded = format!("  {}\r\n", ABC_DIGEST);
    assert_eq!(verify(&b"abc".to_vec(), &padded.as_bytes().to_vec()), Ok(()));
}

#[test]
fn verify_rejects_any_mismatch() {
    assert_eq!(
        verify(&b"abcd".to_vec(), &ABC_DIGEST.as_bytes().to_vec()),
        Err(Error::Integrity)
    );
    assert_eq!(
        verify(&b"abc".to_vec(), &EMPTY_DIGEST.as_bytes().to_vec()),
        Err(Error::Integrity)
    );
}

#[test]
fn verify_does_no_fuzzy_matching() {
    // Uppercase hex is a different text: comparison is exact equality.
    let upper = ABC_DIGEST.to_uppercase();
    assert_eq!(
        verify(&b"abc".to_vec(), &upper.as_bytes().to_vec()),
        Err(Error::Integrity)
    );
}
