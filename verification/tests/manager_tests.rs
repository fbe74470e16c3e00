use pup_rs::cache::Cache;
use pup_rs::checksum::HashAlgorithm;
use pup_rs::config::{Config, ConfigModule};
use pup_rs::error::Error;
use pup_rs::models::{Asset, Release};
use pup_rs::proton_manager::{parse_checksum_text, update_status, ProtonManager, UpdateStatus};

fn asset(name: &str) -> Asset {
    Asset {
        name: name.to_string(),
        browser_download_url: format!("https://example.com/download/{}", name),
        updated_at: 0,
    }
}

fn release_with_assets(tag: &str, assets: Vec<Asset>) -> Release {
    Release {
        name: None,
        tag_name: tag.to_string(),
        created_at: Some(1),
        published_at: Some(1),
        assets,
        installed_in: None,
    }
}

fn module() -> ConfigModule {
    ConfigModule {
        install_dir: "/install".to_string(),
        cache_dir: "/cache".to_string(),
        repo: "proton-ge-custom".to_string(),
        owner: "GloriousEggroll".to_string(),
    }
}

fn manager() -> ProtonManager {
    ProtonManager::new(module(), Cache::new("releases.json".to_string(), 100))
}

#[test]
fn get_asset_prefers_tar_gz() {
    let pm = manager();
    let r = release_with_assets(
        "t",
        vec![asset("a.sha512sum"), asset("a.tar.xz"), asset("a.tar.gz")],
    );
    let a = pm.get_asset(&r).unwrap();
    assert_eq!(a.name, "a.tar.gz");
}

#[test]
fn get_asset_falls_back_to_tar_xz() {
    let pm = manager();
    let r = release_with_assets("t", vec![asset("a.sha512sum"), asset("a.tar.xz")]);
    let a = pm.get_asset(&r).unwrap();
    assert_eq!(a.name, "a.tar.xz");
}

#[test]
fn get_asset_without_archive_is_not_found() {
    let pm = manager();
    let r = release_with_assets("t", vec![asset("a.sha512sum"), asset("readme.txt")]);
    assert!(matches!(pm.get_asset(&r), Err(Error::NotFound(_))));
}

#[test]
fn asset_filename_is_the_last_url_segment() {
    let a = asset("GE-Proton7-51.tar.gz");
    assert_eq!(ProtonManager::asset_filename(&a), "GE-Proton7-51.tar.gz");
}

#[test]
fn checksum_discovery_picks_sha512_first() {
    let pm = manager();
    let r = release_with_assets(
        "t",
        vec![
            asset("GE-Proton7-51.md5sum"),
            asset("GE-Proton7-51.tar.gz"),
            asset("GE-Proton7-51.sha512sum"),
        ],
    );
    let (url, algo) = pm
        .discover_checksum(&r, "GE-Proton7-51.tar.gz")
        .unwrap();
    assert_eq!(url, "https://example.com/download/GE-Proton7-51.sha512sum");
    assert_eq!(algo, HashAlgorithm::Sha512);
}

#[test]
fn checksum_discovery_needs_the_same_base_name() {
    let pm = manager();
    let r = release_with_assets(
        "t",
        vec![asset("other.sha512sum"), asset("GE-Proton7-51.tar.gz")],
    );
    assert!(matches!(
        pm.discover_checksum(&r, "GE-Proton7-51.tar.gz"),
        Err(Error::NotFound(_))
    ));
}

#[test]
fn checksum_discovery_walks_the_suffix_order() {
    let pm = manager();
    let r = release_with_assets(
        "t",
        vec![asset("pkg.tar.gz"), asset("pkg.sha1sum"), asset("pkg.md5sum")],
    );
    let (url, algo) = pm.discover_checksum(&r, "pkg.tar.gz").unwrap();
    assert_eq!(url, "https://example.com/download/pkg.sha1sum");
    assert_eq!(algo, HashAlgorithm::Sha1);
}

#[test]
fn parse_checksum_text_takes_the_first_token() {
    let digest = parse_checksum_text("abc123  GE-Proton7-51.tar.gz\n").unwrap();
    assert_eq!(digest, "abc123");
}

#[test]
fn parse_checksum_text_skips_leading_whitespace() {
    let digest = parse_checksum_text("\n\t  deadbeef file").unwrap();
    assert_eq!(digest, "deadbeef");
}

#[test]
fn parse_checksum_text_without_token_is_not_found() {
    assert!(matches!(parse_checksum_text(""), Err(Error::NotFound(_))));
    assert!(matches!(parse_checksum_text("  \n\t "), Err(Error::NotFound(_))));
}

#[test]
fn installed_listing_is_empty_before_any_install() {
    let mut pm = manager();
    pm.record_fetched_releases(vec![
        release_with_assets("GE-Proton7-50", vec![]),
        release_with_assets("GE-Proton7-49", vec![]),
    ]);
    assert!(pm.get_installed_releases().is_empty());
}

#[test]
fn installed_listing_holds_the_installed_release() {
    let mut pm = manager();
    pm.record_fetched_releases(vec![release_with_assets("GE-Proton7-50", vec![])]);
    pm.record_install(release_with_assets("GE-Proton7-51", vec![]));
    let installed = pm.get_installed_releases();
    assert_eq!(installed.len(), 1);
    assert_eq!(installed[0].tag_name, "GE-Proton7-51");
    assert_eq!(installed[0].installed_in.as_deref(), Some("/install"));
}

#[test]
fn reinstall_replaces_the_cache_entry() {
    let mut pm = manager();
    let r = release_with_assets("tag", vec![]);
    pm.record_install(Release { ..r.clone() });
    pm.record_install(r);
    assert_eq!(pm.releases_cache.len(), 1);
    assert_eq!(pm.get_installed_releases().len(), 1);
}

#[test]
fn make_downloader_wires_the_acquisition() {
    let pm = manager();
    let a = asset("GE-Proton7-51.tar.gz");
    let d = pm.make_downloader(&a, "cafe".to_string(), HashAlgorithm::Sha512);
    match d.first_step() {
        pup_rs::downloader::AcquireStep::CheckCache { path } => {
            assert_eq!(path, "/cache/GE-Proton7-51.tar.gz");
        }
        other => panic!("expected a cache probe, got {:?}", other),
    }
    match d.after_cache_check(false) {
        pup_rs::downloader::CacheOutcome::Download { url, destination } => {
            assert_eq!(url, "https://example.com/download/GE-Proton7-51.tar.gz");
            assert_eq!(destination, "/cache/GE-Proton7-51.tar.gz");
        }
        other => panic!("expected a download, got {:?}", other),
    }
}

#[test]
fn update_status_reports_each_case() {
    let newest = release_with_assets("v2", vec![]);
    let installed = release_with_assets("v1", vec![]);
    assert!(matches!(update_status(None, None), UpdateStatus::NoReleases));
    match update_status(Some(&newest), None) {
        UpdateStatus::NotInstalled { latest_tag } => assert_eq!(latest_tag, "v2"),
        other => panic!("expected not installed, got {:?}", other),
    }
    match update_status(Some(&newest), Some(&installed)) {
        UpdateStatus::UpdateAvailable { latest_tag, installed_tag } => {
            assert_eq!(latest_tag, "v2");
            assert_eq!(installed_tag, "v1");
        }
        other => panic!("expected an update, got {:?}", other),
    }
    match update_status(Some(&newest), Some(&newest.clone())) {
        UpdateStatus::UpToDate { tag } => assert_eq!(tag, "v2"),
        other => panic!("expected up to date, got {:?}", other),
    }
}

#[test]
fn config_module_lookup() {
    let config = Config::new(
        "config.toml".to_string(),
        vec![
            ("default".to_string(), module()),
            (
                "other".to_string(),
                ConfigModule {
                    install_dir: "/other".to_string(),
                    cache_dir: "/other-cache".to_string(),
                    repo: "r".to_string(),
                    owner: "o".to_string(),
                },
            ),
        ],
    );
    assert_eq!(config.get_module("other").unwrap().install_dir, "/other");
    assert!(config.get_module("missing").is_none());
    assert_eq!(config.first_module().unwrap().install_dir, "/install");
}

#[test]
fn error_messages_name_their_kind() {
    assert_eq!(
        Error::NotFound("config dir".to_string()).message(),
        "Not found: config dir"
    );
    assert_eq!(Error::NoDownloadStrategy.message(), "No download strategy");
    assert_eq!(
        Error::Mismatch { expected: "aa".to_string(), actual: "bb".to_string() }.message(),
        "Hash Mismatch Error: expected aa, got bb"
    );
    assert_eq!(Error::new("odd").message(), "Unspecified: odd");
}
