use pup_rs::checksum::{verify_digest, HashAlgorithm};
use pup_rs::error::Error;

#[test]
fn md5_of_known_bytes_matches() {
    let data = b"abc".to_vec();
    assert!(verify_digest(&data, "900150983cd24fb0d6963f7d28e17f72", HashAlgorithm::Md5).is_ok());
}

#[test]
fn sha1_of_known_bytes_matches() {
    let data = b"abc".to_vec();
    assert!(
        verify_digest(&data, "a9993e364706816aba3e25717850c26c9cd0d89d", HashAlgorithm::Sha1)
            .is_ok()
    );
}

#[test]
fn sha256_of_known_bytes_matches() {
    let data = b"abc".to_vec();
    let expected = "ba7816bf8f01cfea414140de5dae2223b00361a396177a9cb410ff61f20015ad";
    assert!(verify_digest(&data, expected, HashAlgorithm::Sha256).is_ok());
}

#[test]
fn sha512_of_known_bytes_matches() {
    let data = b"abc".to_vec();
    let expected = "ddaf35a193617abacc417349ae20413112e6fa4e89a97ea20a9eeee64b55d39a\
2192992a274fc1a836ba3c23a3feebbd454d4423643ce80e2a9ac94fa54ca49f";
    assert!(verify_digest(&data, expected, HashAlgorithm::Sha512).is_ok());
}

#[test]
fn comparison_ignores_ascii_case() {
    let data = b"abc".to_vec();
    assert!(verify_digest(&data, "900150983CD24FB0D6963F7D28E17F72", HashAlgorithm::Md5).is_ok());
}

#[test]
fn verification_is_deterministic() {
    let data = b"some artifact bytes".to_vec();
    let expected = checksums::hash_reader(&mut data.as_slice(), checksums::Algorithm::SHA2256);
    for _ in 0..3 {
        assert!(verify_digest(&data, &expected, HashAlgorithm::Sha256).is_ok());
    }
}

#[test]
fn flipping_one_byte_mismatches() {
    let data = b"some artifact bytes".to_vec();
    let expected = checksums::hash_reader(&mut data.as_slice(), checksums::Algorithm::SHA2256);
    let mut flipped = data.clone();
    flipped[0] ^= 1;
    let r = verify_digest(&flipped, &expected, HashAlgorithm::Sha256);
    assert!(r.is_err());
}

#[test]
fn mismatch_carries_both_digests() {
    let data = b"abc".to_vec();
    let r = verify_digest(&data, "00000000000000000000000000000000", HashAlgorithm::Md5);
    match r {
        Err(Error::Mismatch { expected, actual }) => {
            assert_eq!(expected, "00000000000000000000000000000000");
            assert_eq!(actual.to_lowercase(), "900150983cd24fb0d6963f7d28e17f72");
        }
        other => panic!("expected a mismatch, got {:?}", other),
    }
}
