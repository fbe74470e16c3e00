use vstd::prelude::*;

verus! {

use crate::error::Error;
use crate::text::{eq_ignore_ascii_case, eq_ignore_ascii_case_str};
use vstd::string::StringExecFns;

// Digest computation and comparison.  The digest itself comes from an
// outside hashing crate; everything around it — which algorithm was asked
// for, and whether the produced hex string matches the expected one up to
// ASCII case — is stated and proved here.

/// The digest algorithms a checksum asset can name.
#[derive(Debug, Clone, Copy, PartialEq, Eq)]
pub enum HashAlgorithm {
    Md5,
    Sha1,
    Sha256,
    Sha512,
}

/// The hex digest of `data` under `algorithm`: a function of the bytes and
/// the algorithm alone, computed by the outside hashing crate.
pub uninterp spec fn digest_of(algorithm: HashAlgorithm, data: Seq<u8>) -> Seq<char>;

/// Relies on checksums::hash_reader: hashes the byte stream under the given
/// algorithm and returns the digest as a hex string, a deterministic
/// function of the bytes and the algorithm.
#[verifier::external_body]
fn hash_bytes(data: &Vec<u8>, algorithm: HashAlgorithm) -> (r: String)
    ensures
        r@ == digest_of(algorithm, data@),
{
    let algo = match algorithm {
        HashAlgorithm::Md5 => checksums::Algorithm::MD5,
        HashAlgorithm::Sha1 => checksums::Algorithm::SHA1,
        HashAlgorithm::Sha256 => checksums::Algorithm::SHA2256,
        HashAlgorithm::Sha512 => checksums::Algorithm::SHA2512,
    };
    let mut reader = data.as_slice();
    checksums::hash_reader(&mut reader, algo)
}

/// Whether `expected` names the digest of `data` under `algorithm`, up to
/// ASCII case.
pub open spec fn digest_matches(
    algorithm: HashAlgorithm,
    data: Seq<u8>,
    expected: Seq<char>,
) -> bool {
    eq_ignore_ascii_case(digest_of(algorithm, data), expected)
}

/// Compute the digest of `data` under `algorithm` and compare it, case
/// insensitively, against the expected hex string.  Succeeds exactly when
/// they agree; a mismatch reports both digests.
pub fn verify_digest(data: &Vec<u8>, expected: &str, algorithm: HashAlgorithm) -> (r: Result<
    (),
    Error,
>)
    ensures
        r is Ok <==> digest_matches(algorithm, data@, expected@),
        r is Err ==> (r matches Err(Error::Mismatch { expected: e, actual: a }) && e@ == expected@
            && a@ == digest_of(algorithm, data@)),
{
    let actual = hash_bytes(data, algorithm);
    if eq_ignore_ascii_case_str(actual.as_str(), expected) {
        Ok(())
    } else {
        Err(Error::Mismatch { expected: String::from_str(expected), actual })
    }
}

/// Verification is deterministic: the digest of a byte sequence is a
/// function of the bytes and the algorithm, so checking any data against
/// its own true digest always succeeds.
pub proof fn lemma_true_digest_matches(algorithm: HashAlgorithm, data: Seq<u8>)
    ensures
        digest_matches(algorithm, data, digest_of(algorithm, data)),
{
}

} // verus!
