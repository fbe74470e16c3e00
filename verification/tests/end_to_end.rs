use std::io::Write;

use pup_rs::cache::Cache;
use pup_rs::checksum::HashAlgorithm;
use pup_rs::config::ConfigModule;
use pup_rs::downloader::{AcquireStep, CacheOutcome, DigestOutcome, VerifyStep};
use pup_rs::extract::{extract, ExtractOutput};
use pup_rs::models::{Asset, Release};
use pup_rs::proton_manager::{parse_checksum_text, ProtonManager};

// The whole install pipeline, driven on in-memory data: the registry
// reports a release with an archive asset and a sha512sum asset; the
// manager selects the asset, discovers the algorithm from the checksum
// asset's suffix, acquires and verifies the archive bytes, extracts, and
// records the install in the metadata cache.
#[test]
fn install_pipeline_end_to_end() {
    // The archive: a tar.gz holding the release directory.
    let mut builder = tar::Builder::new(Vec::new());
    let mut header = tar::Header::new_gnu();
    let content = b"GE-Proton7-51";
    header.set_size(content.len() as u64);
    header.set_mode(0o644);
    header.set_cksum();
    builder
        .append_data(&mut header, "GE-Proton7-51/version", content.as_slice())
        .unwrap();
    let tar_bytes = builder.into_inner().unwrap();
    let mut encoder = flate2::write::GzEncoder::new(Vec::new(), flate2::Compression::default());
    encoder.write_all(&tar_bytes).unwrap();
    let archive_bytes = encoder.finish().unwrap();

    // What the registry reports.
    let release = Release {
        name: Some("GE-Proton7-51 released".to_string()),
        tag_name: "GE-Proton7-51".to_string(),
        created_at: Some(1_660_000_000),
        published_at: Some(1_660_000_000),
        assets: vec![
            Asset {
                name: "GE-Proton7-51.sha512sum".to_string(),
                browser_download_url:
                    "https://example.com/v7-51/GE-Proton7-51.sha512sum".to_string(),
                updated_at: 1,
            },
            Asset {
                name: "GE-Proton7-51.tar.gz".to_string(),
                browser_download_url: "https://example.com/v7-51/GE-Proton7-51.tar.gz".to_string(),
                updated_at: 2,
            },
        ],
        installed_in: None,
    };

    // What fetching the checksum asset would return.
    let digest = checksums::hash_reader(&mut archive_bytes.as_slice(), checksums::Algorithm::SHA2512);
    let checksum_text = format!("{}  GE-Proton7-51.tar.gz", digest);

    let config = ConfigModule {
        install_dir: "/install".to_string(),
        cache_dir: "/cache".to_string(),
        repo: "proton-ge-custom".to_string(),
        owner: "GloriousEggroll".to_string(),
    };
    let mut pm = ProtonManager::new(config, Cache::new("releases.json".to_string(), 100));

    // Select the asset and discover the checksum.
    let asset = pm.get_asset(&release).unwrap();
    assert_eq!(asset.name, "GE-Proton7-51.tar.gz");
    let filename = ProtonManager::asset_filename(&asset);
    let (checksum_url, algorithm) = pm.discover_checksum(&release, &filename).unwrap();
    assert_eq!(
        checksum_url,
        "https://example.com/v7-51/GE-Proton7-51.sha512sum"
    );
    assert_eq!(algorithm, HashAlgorithm::Sha512);
    let expected_digest = parse_checksum_text(&checksum_text).unwrap();
    assert_eq!(expected_digest, digest);

    // Acquire: probe the cache, miss, download, verify.
    let downloader = pm.make_downloader(&asset, expected_digest, algorithm);
    let path = match downloader.first_step() {
        AcquireStep::CheckCache { path } => path,
        other => panic!("expected a cache probe, got {:?}", other),
    };
    assert_eq!(path, "/cache/GE-Proton7-51.tar.gz");
    let destination = match downloader.after_cache_check(false) {
        CacheOutcome::Download { url, destination } => {
            assert_eq!(url, "https://example.com/v7-51/GE-Proton7-51.tar.gz");
            destination
        }
        other => panic!("expected a download, got {:?}", other),
    };
    match downloader.after_acquired(destination.clone()) {
        VerifyStep::Verify { algorithm: a, .. } => assert_eq!(a, HashAlgorithm::Sha512),
        other => panic!("expected a verification step, got {:?}", other),
    }
    let acquired = match downloader.verify_acquired(destination, &archive_bytes) {
        DigestOutcome::Verified { path } => path,
        other => panic!("expected verified, got {:?}", other),
    };
    assert_eq!(acquired, "/cache/GE-Proton7-51.tar.gz");

    // Extract and record the install.
    match extract(&acquired, &archive_bytes).unwrap() {
        ExtractOutput::Archive { entries, .. } => {
            assert_eq!(entries, vec!["GE-Proton7-51".to_string()]);
        }
        other => panic!("expected a tar archive, got {:?}", other),
    }
    pm.record_install(release);

    let installed = pm.get_installed_releases();
    assert_eq!(installed.len(), 1);
    assert_eq!(installed[0].tag_name, "GE-Proton7-51");
    assert_eq!(installed[0].installed_in.as_deref(), Some("/install"));
}
