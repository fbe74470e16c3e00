use vstd::prelude::*;

verus! {

use crate::checksum::{digest_matches, digest_of, verify_digest, HashAlgorithm};
use crate::error::Error;
use crate::text::{join_path, join_path_spec, last_segment, last_segment_str};

// The acquisition strategy: prefer a file already sitting in the local
// cache, otherwise stream the remote URL to the destination, then verify
// the result when a checksum is configured.  The strategy is a small state
// machine: each step here decides, and the surrounding program performs
// the file probe, the download, and the deletion the decisions call for.

/// Where to download from and where to put the result.
#[derive(Debug)]
pub struct DownloadParams {
    pub url: String,
    pub destination: String,
}

impl DownloadParams {
    pub fn new(url: String, destination: String) -> (r: Self)
        ensures
            r.url@ == url@,
            r.destination@ == destination@,
    {
        DownloadParams { url, destination }
    }
}

/// Where a previously downloaded copy would sit.
#[derive(Debug)]
pub struct CacheParams {
    pub cache_path: String,
}

impl CacheParams {
    pub fn new(cache_path: String) -> (r: Self)
        ensures
            r.cache_path@ == cache_path@,
    {
        CacheParams { cache_path }
    }
}

/// The expected digest, the algorithm it is under, and whether a file
/// failing verification is removed.
#[derive(Debug)]
pub struct VerifyParams {
    pub checksum: String,
    pub checksum_algorithm: HashAlgorithm,
    pub remove_failed: bool,
}

impl VerifyParams {
    pub fn new(checksum: String, checksum_algorithm: HashAlgorithm, remove_failed: bool) -> (r:
        Self)
        ensures
            r.checksum@ == checksum@,
            r.checksum_algorithm == checksum_algorithm,
            r.remove_failed == remove_failed,
    {
        VerifyParams { checksum, checksum_algorithm, remove_failed }
    }

    /// Check acquired bytes against the configured digest.  Succeeds
    /// exactly when the digest of the bytes, under the configured
    /// algorithm, matches the configured hex string up to ASCII case.
    pub fn verify(&self, data: &Vec<u8>) -> (r: Result<(), Error>)
        ensures
            r is Ok <==> digest_matches(self.checksum_algorithm, data@, self.checksum@),
            r is Err ==> (r matches Err(Error::Mismatch { expected, actual }) && expected@
                == self.checksum@ && actual@ == digest_of(self.checksum_algorithm, data@)),
    {
        verify_digest(data, self.checksum.as_str(), self.checksum_algorithm)
    }
}

/// The acquisition configuration: any of the three parts may be absent.
#[derive(Debug)]
pub struct Downloader {
    pub download: Option<DownloadParams>,
    pub cache: Option<CacheParams>,
    pub verify: Option<VerifyParams>,
}

/// The first move of an acquisition.
#[derive(Debug)]
pub enum AcquireStep {
    /// Probe the local cache for a file at this path.
    CheckCache { path: String },
    /// Stream the URL to the destination path.
    Download { url: String, destination: String },
    /// Nothing configured can produce a file.
    Fail { error: Error },
}

/// What follows the cache probe.
#[derive(Debug)]
pub enum CacheOutcome {
    /// The cached file is the acquisition; no download happens.
    UseCached { path: String },
    /// Cache miss: stream the URL to the destination path.
    Download { url: String, destination: String },
    /// Cache miss and no download configured.
    Fail { error: Error },
}

/// What follows once a file has been acquired.
#[derive(Debug)]
pub enum VerifyStep {
    /// Hash the file at `path` and compare against the expected digest.
    Verify { path: String, checksum: String, algorithm: HashAlgorithm },
    /// No checksum is configured: the file is handed back, and the caller
    /// sees explicitly that verification was skipped.
    DoneUnverified { path: String },
}

/// What the digest comparison decides.
#[derive(Debug)]
pub enum DigestOutcome {
    /// The digests agree: the acquisition is complete and verified.
    Verified { path: String },
    /// The digests differ and the configuration asks for cleanup: the
    /// file at `path` is to be deleted before the error is surfaced.
    RemoveAndFail { path: String, error: Error },
    /// The digests differ; the file stays where it is.
    Fail { error: Error },
}

impl Downloader {
    /// Assemble an acquisition from its optional parts, as far as they are
    /// given: a download needs a URL and a destination; a cache probe
    /// needs a cache directory and a destination whose final path segment
    /// is a file name; verification needs a digest and an algorithm.
    pub fn new(
        download_url: Option<String>,
        destination: Option<String>,
        cache_dir: Option<String>,
        checksum: Option<String>,
        checksum_algorithm: Option<HashAlgorithm>,
        remove_failed: bool,
    ) -> (r: Self)
        ensures
            r.download is Some <==> (download_url is Some && destination is Some),
            r.download is Some ==> (r.download->0.url@ == download_url->0@
                && r.download->0.destination@ == destination->0@),
            r.cache is Some <==> (cache_dir is Some && destination is Some && last_segment(
                destination->0@,
            ).len() > 0),
            r.cache is Some ==> r.cache->0.cache_path@ == join_path_spec(
                cache_dir->0@,
                last_segment(destination->0@),
            ),
            r.verify is Some <==> (checksum is Some && checksum_algorithm is Some),
            r.verify is Some ==> (r.verify->0.checksum@ == checksum->0@
                && r.verify->0.checksum_algorithm == checksum_algorithm->0
                && r.verify->0.remove_failed == remove_failed),
    {
        let filename: Option<String> = match &destination {
            Some(d) => {
                let seg = last_segment_str(d.as_str());
                if seg.unicode_len() > 0 {
                    Some(seg)
                } else {
                    None
                }
            },
            None => None,
        };
        let download: Option<DownloadParams> = match (download_url, destination) {
            (Some(url), Some(dest)) => Some(DownloadParams::new(url, dest)),
            _ => None,
        };
        let cache: Option<CacheParams> = match (filename, cache_dir) {
            (Some(name), Some(dir)) => Some(
                CacheParams::new(join_path(dir.as_str(), name.as_str())),
            ),
            _ => None,
        };
        let verify: Option<VerifyParams> = match (checksum, checksum_algorithm) {
            (Some(c), Some(a)) => Some(VerifyParams::new(c, a, remove_failed)),
            _ => None,
        };
        Downloader { download, cache, verify }
    }

    /// The opening move: probe the cache when one is configured, else
    /// download when that is configured, else report that no strategy can
    /// produce a file.
    pub fn first_step(&self) -> (r: AcquireStep)
        ensures
            self.cache is Some ==> (r matches AcquireStep::CheckCache { path } && path@
                == self.cache->0.cache_path@),
            self.cache is None && self.download is Some ==> (r matches AcquireStep::Download {
                url,
                destination,
            } && url@ == self.download->0.url@ && destination@ == self.download->0.destination@),
            self.cache is None && self.download is None ==> (r matches AcquireStep::Fail { error }
                && error is NoDownloadStrategy),
    {
        match &self.cache {
            Some(c) => AcquireStep::CheckCache { path: c.cache_path.clone() },
            None => match &self.download {
                Some(d) => AcquireStep::Download {
                    url: d.url.clone(),
                    destination: d.destination.clone(),
                },
                None => AcquireStep::Fail { error: Error::NoDownloadStrategy },
            },
        }
    }

    /// What the cache probe decides: a hit is the acquisition, with no
    /// download; a miss falls through to the download when one is
    /// configured, and fails otherwise.
    pub fn after_cache_check(&self, exists: bool) -> (r: CacheOutcome)
        requires
            self.cache is Some,
        ensures
            exists ==> (r matches CacheOutcome::UseCached { path } && path@
                == self.cache->0.cache_path@),
            !exists && self.download is Some ==> (r matches CacheOutcome::Download {
                url,
                destination,
            } && url@ == self.download->0.url@ && destination@ == self.download->0.destination@),
            !exists && self.download is None ==> (r matches CacheOutcome::Fail { error }
                && error is NoDownloadStrategy),
    {
        if exists {
            let path = self.cache.as_ref().unwrap().cache_path.clone();
            CacheOutcome::UseCached { path }
        } else {
            match &self.download {
                Some(d) => CacheOutcome::Download {
                    url: d.url.clone(),
                    destination: d.destination.clone(),
                },
                None => CacheOutcome::Fail { error: Error::NoDownloadStrategy },
            }
        }
    }

    /// What happens to an acquired file: it is hashed when verification is
    /// configured, and otherwise handed back with the skip made visible.
    pub fn after_acquired(&self, path: String) -> (r: VerifyStep)
        ensures
            self.verify is Some ==> (r matches VerifyStep::Verify { path: p, checksum, algorithm }
                && p@ == path@ && checksum@ == self.verify->0.checksum@ && algorithm
                == self.verify->0.checksum_algorithm),
            self.verify is None ==> (r matches VerifyStep::DoneUnverified { path: p } && p@
                == path@),
    {
        match &self.verify {
            Some(v) => VerifyStep::Verify {
                path,
                checksum: v.checksum.clone(),
                algorithm: v.checksum_algorithm,
            },
            None => VerifyStep::DoneUnverified { path },
        }
    }

    /// Judge the acquired bytes against the configured digest: agreement
    /// completes the acquisition; a mismatch fails it, and removes the
    /// file first exactly when the configuration says to.
    pub fn verify_acquired(&self, path: String, data: &Vec<u8>) -> (r: DigestOutcome)
        requires
            self.verify is Some,
        ensures
            digest_matches(self.verify->0.checksum_algorithm, data@, self.verify->0.checksum@)
                ==> (r matches DigestOutcome::Verified { path: p } && p@ == path@),
            !digest_matches(self.verify->0.checksum_algorithm, data@, self.verify->0.checksum@)
                ==> match r {
                DigestOutcome::Verified { .. } => false,
                DigestOutcome::RemoveAndFail { path: p, error } => self.verify->0.remove_failed
                    && p@ == path@ && (error matches Error::Mismatch { expected, actual }
                    && expected@ == self.verify->0.checksum@ && actual@ == digest_of(
                    self.verify->0.checksum_algorithm,
                    data@,
                )),
                DigestOutcome::Fail { error } => !self.verify->0.remove_failed && (error matches
                    Error::Mismatch { expected, actual } && expected@ == self.verify->0.checksum@
                    && actual@ == digest_of(self.verify->0.checksum_algorithm, data@)),
            },
    {
        let v = self.verify.as_ref().unwrap();
        match v.verify(data) {
            Ok(()) => DigestOutcome::Verified { path },
            Err(e) => {
                if v.remove_failed {
                    DigestOutcome::RemoveAndFail { path, error: e }
                } else {
                    DigestOutcome::Fail { error: e }
                }
            },
        }
    }
}

/// With a cached copy present and no verification configured, acquisition
/// hands back the cached path: the probe decides to use the cache, never
/// to download, and the file is returned with verification skipped.
pub proof fn lemma_cache_hit_without_verification(
    d: Downloader,
    probe: CacheOutcome,
    handed: VerifyStep,
    path: String,
)
    requires
        d.cache is Some,
        d.verify is None,
        call_ensures(Downloader::after_cache_check, (&d, true), probe),
        probe matches CacheOutcome::UseCached { path: p } && p == path,
        call_ensures(Downloader::after_acquired, (&d, path), handed),
    ensures
        !(probe matches CacheOutcome::Download { .. }),
        handed matches VerifyStep::DoneUnverified { path: p } && p@ == d.cache->0.cache_path@,
{
}

/// A checksum mismatch under `remove_failed` always orders the file
/// removed before the failure is surfaced: no outcome leaves the file in
/// place or calls it verified.
pub proof fn lemma_mismatch_removes_file(
    d: Downloader,
    path: String,
    data: Seq<u8>,
    outcome: DigestOutcome,
)
    requires
        d.verify is Some,
        d.verify->0.remove_failed,
        !digest_matches(d.verify->0.checksum_algorithm, data, d.verify->0.checksum@),
        exists|v: Vec<u8>|
            v@ == data && #[trigger] call_ensures(Downloader::verify_acquired, (&d, path, &v), outcome),
    ensures
        outcome matches DigestOutcome::RemoveAndFail { path: p, error } && p@ == path@
            && error is Mismatch,
{
    let v = choose|v: Vec<u8>|
        v@ == data && #[trigger] call_ensures(Downloader::verify_acquired, (&d, path, &v), outcome);
}

} // verus!
