use pup_rs::cache::Cache;
use pup_rs::models::{Asset, Release};

fn release(tag: &str, published_at: Option<i64>) -> Release {
    Release {
        name: Some(format!("Release {}", tag)),
        tag_name: tag.to_string(),
        created_at: published_at,
        published_at,
        assets: Vec::new(),
        installed_in: None,
    }
}

fn tags(releases: &[Release]) -> Vec<String> {
    releases.iter().map(|r| r.tag_name.clone()).collect()
}

#[test]
fn empty_cache_lists_nothing() {
    let cache = Cache::new("releases.json".to_string(), 10);
    assert_eq!(cache.len(), 0);
    assert!(cache.get().is_empty());
}

#[test]
fn entries_come_back_newest_first() {
    let mut cache = Cache::new("releases.json".to_string(), 10);
    cache.add(release("older", Some(100)));
    cache.add(release("newest", Some(300)));
    cache.add(release("middle", Some(200)));
    let got = cache.get();
    assert_eq!(tags(&got), vec!["newest", "middle", "older"]);
}

#[test]
fn capacity_keeps_only_the_newest() {
    let mut cache = Cache::new("releases.json".to_string(), 3);
    for (tag, ts) in [("a", 10), ("b", 50), ("c", 30), ("d", 40), ("e", 20)] {
        cache.add(release(tag, Some(ts)));
    }
    let got = cache.get();
    assert_eq!(got.len(), 3);
    assert_eq!(tags(&got), vec!["b", "d", "c"]);
}

#[test]
fn capacity_holds_after_every_save() {
    let mut cache = Cache::new("releases.json".to_string(), 2);
    for ts in 0..20 {
        cache.add(release(&format!("tag{}", ts), Some(ts)));
        assert!(cache.len() <= 2);
    }
    let got = cache.get();
    assert_eq!(tags(&got), vec!["tag19", "tag18"]);
}

#[test]
fn identity_collision_replaces_without_growing() {
    let mut cache = Cache::new("releases.json".to_string(), 10);
    cache.add(release("tag", Some(100)));
    assert_eq!(cache.len(), 1);

    let mut replacement = release("tag", Some(100));
    replacement.assets.push(Asset {
        name: "file.tar.gz".to_string(),
        browser_download_url: "https://example.com/file.tar.gz".to_string(),
        updated_at: 5,
    });
    cache.add(replacement);
    assert_eq!(cache.len(), 1);
    let got = cache.get();
    assert_eq!(got[0].assets.len(), 1);
    assert_eq!(got[0].assets[0].name, "file.tar.gz");
}

#[test]
fn same_tag_different_timestamp_is_a_new_entry() {
    let mut cache = Cache::new("releases.json".to_string(), 10);
    cache.add(release("tag", Some(100)));
    cache.add(release("tag", Some(200)));
    assert_eq!(cache.len(), 2);
}

#[test]
fn timestamp_ties_break_by_tag_descending() {
    let mut cache = Cache::new("releases.json".to_string(), 10);
    cache.add(release("alpha", Some(100)));
    cache.add(release("gamma", Some(100)));
    cache.add(release("beta", Some(100)));
    let got = cache.get();
    assert_eq!(tags(&got), vec!["gamma", "beta", "alpha"]);
}

#[test]
fn missing_timestamp_sorts_oldest() {
    let mut cache = Cache::new("releases.json".to_string(), 10);
    cache.add(release("undated", None));
    cache.add(release("dated", Some(1)));
    let got = cache.get();
    assert_eq!(tags(&got), vec!["dated", "undated"]);
}

#[test]
fn add_range_merges_and_dedupes() {
    let mut cache = Cache::new("releases.json".to_string(), 10);
    cache.add(release("kept", Some(50)));
    cache.add_range(vec![
        release("new1", Some(70)),
        release("kept", Some(50)),
        release("new2", Some(60)),
    ]);
    let got = cache.get();
    assert_eq!(tags(&got), vec!["new1", "new2", "kept"]);
}

#[test]
fn update_and_update_range_merge_too() {
    let mut cache = Cache::new("releases.json".to_string(), 10);
    cache.update(release("one", Some(1)));
    cache.update_range(vec![release("two", Some(2)), release("one", Some(1))]);
    assert_eq!(cache.len(), 2);
    assert_eq!(tags(&cache.get()), vec!["two", "one"]);
}

#[test]
fn path_is_kept() {
    let cache = Cache::new("some/dir/releases.json".to_string(), 4);
    assert_eq!(cache.path(), "some/dir/releases.json");
}
