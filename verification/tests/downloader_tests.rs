use pup_rs::checksum::HashAlgorithm;
use pup_rs::downloader::{
    AcquireStep, CacheOutcome, DigestOutcome, Downloader, VerifyParams, VerifyStep,
};
use pup_rs::error::Error;

fn full_downloader(checksum: Option<&str>) -> Downloader {
    Downloader::new(
        Some("https://example.com/release/file.tar.gz".to_string()),
        Some("/cache/file.tar.gz".to_string()),
        Some("/cache".to_string()),
        checksum.map(|c| c.to_string()),
        checksum.map(|_| HashAlgorithm::Sha256),
        true,
    )
}

#[test]
fn nothing_configured_has_no_strategy() {
    let d = Downloader::new(None, None, None, None, None, false);
    match d.first_step() {
        AcquireStep::Fail { error } => assert!(matches!(error, Error::NoDownloadStrategy)),
        other => panic!("expected no strategy, got {:?}", other),
    }
}

#[test]
fn url_without_destination_has_no_strategy() {
    let d = Downloader::new(
        Some("https://example.com/f".to_string()),
        None,
        None,
        None,
        None,
        false,
    );
    assert!(matches!(d.first_step(), AcquireStep::Fail { .. }));
}

#[test]
fn download_only_skips_the_cache_probe() {
    let d = Downloader::new(
        Some("https://example.com/f.tar.gz".to_string()),
        Some("/tmp/f.tar.gz".to_string()),
        None,
        None,
        None,
        false,
    );
    match d.first_step() {
        AcquireStep::Download { url, destination } => {
            assert_eq!(url, "https://example.com/f.tar.gz");
            assert_eq!(destination, "/tmp/f.tar.gz");
        }
        other => panic!("expected a download, got {:?}", other),
    }
}

#[test]
fn cache_probe_comes_first_and_hit_skips_download() {
    // A pre-existing cache file and no verification: the acquisition is the
    // cached path, and no download step is ever issued.
    let d = full_downloader(None);
    let path = match d.first_step() {
        AcquireStep::CheckCache { path } => {
            assert_eq!(path, "/cache/file.tar.gz");
            path
        }
        other => panic!("expected a cache probe, got {:?}", other),
    };
    let path = match d.after_cache_check(true) {
        CacheOutcome::UseCached { path: p } => {
            assert_eq!(p, path);
            p
        }
        other => panic!("expected the cached file, got {:?}", other),
    };
    match d.after_acquired(path) {
        VerifyStep::DoneUnverified { path: p } => assert_eq!(p, "/cache/file.tar.gz"),
        other => panic!("expected an unverified completion, got {:?}", other),
    }
}

#[test]
fn cache_miss_falls_through_to_download() {
    let d = full_downloader(None);
    match d.after_cache_check(false) {
        CacheOutcome::Download { url, destination } => {
            assert_eq!(url, "https://example.com/release/file.tar.gz");
            assert_eq!(destination, "/cache/file.tar.gz");
        }
        other => panic!("expected a download, got {:?}", other),
    }
}

#[test]
fn cache_miss_without_download_fails() {
    let d = Downloader::new(
        None,
        Some("/cache/file.tar.gz".to_string()),
        Some("/cache".to_string()),
        None,
        None,
        false,
    );
    assert!(matches!(d.first_step(), AcquireStep::CheckCache { .. }));
    match d.after_cache_check(false) {
        CacheOutcome::Fail { error } => assert!(matches!(error, Error::NoDownloadStrategy)),
        other => panic!("expected a failure, got {:?}", other),
    }
}

#[test]
fn configured_checksum_is_checked() {
    let data = b"artifact".to_vec();
    let digest = checksums::hash_reader(&mut data.as_slice(), checksums::Algorithm::SHA2256);
    let d = full_downloader(Some(&digest));
    match d.after_acquired("/cache/file.tar.gz".to_string()) {
        VerifyStep::Verify { path, checksum, algorithm } => {
            assert_eq!(path, "/cache/file.tar.gz");
            assert_eq!(checksum, digest);
            assert_eq!(algorithm, HashAlgorithm::Sha256);
        }
        other => panic!("expected a verification step, got {:?}", other),
    }
    match d.verify_acquired("/cache/file.tar.gz".to_string(), &data) {
        DigestOutcome::Verified { path } => assert_eq!(path, "/cache/file.tar.gz"),
        other => panic!("expected verified, got {:?}", other),
    }
}

#[test]
fn mismatch_with_remove_on_error_orders_the_file_removed() {
    // A checksum mismatch with removal configured: the outcome names the
    // destination to delete before the error is surfaced, so no file is
    // left at the path afterward.
    let d = full_downloader(Some("0000000000000000000000000000000000000000000000000000000000000000"));
    let data = b"artifact".to_vec();
    match d.verify_acquired("/cache/file.tar.gz".to_string(), &data) {
        DigestOutcome::RemoveAndFail { path, error } => {
            assert_eq!(path, "/cache/file.tar.gz");
            assert!(matches!(error, Error::Mismatch { .. }));
        }
        other => panic!("expected removal and failure, got {:?}", other),
    }
}

#[test]
fn mismatch_without_removal_keeps_the_file() {
    let d = Downloader::new(
        Some("https://example.com/f".to_string()),
        Some("/cache/f".to_string()),
        Some("/cache".to_string()),
        Some("00".to_string()),
        Some(HashAlgorithm::Md5),
        false,
    );
    let data = b"artifact".to_vec();
    match d.verify_acquired("/cache/f".to_string(), &data) {
        DigestOutcome::Fail { error } => match error {
            Error::Mismatch { expected, actual } => {
                assert_eq!(expected, "00");
                assert_eq!(
                    actual.to_lowercase(),
                    checksums::hash_reader(&mut data.as_slice(), checksums::Algorithm::MD5)
                        .to_lowercase()
                );
            }
            other => panic!("expected a mismatch, got {:?}", other),
        },
        other => panic!("expected a kept-file failure, got {:?}", other),
    }
}

#[test]
fn verify_params_compare_case_insensitively() {
    let data = b"abc".to_vec();
    let params = VerifyParams::new(
        "900150983CD24FB0D6963F7D28E17F72".to_string(),
        HashAlgorithm::Md5,
        false,
    );
    assert!(params.verify(&data).is_ok());
}

#[test]
fn destination_without_file_name_disables_the_cache_probe() {
    let d = Downloader::new(
        Some("https://example.com/f".to_string()),
        Some("/ends/with/slash/".to_string()),
        Some("/cache".to_string()),
        None,
        None,
        false,
    );
    assert!(matches!(d.first_step(), AcquireStep::Download { .. }));
}
