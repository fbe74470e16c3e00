use vstd::prelude::*;

verus! {

use crate::cache::{spec_trim, spec_upsert, spec_upsert_all, Cache};
use crate::checksum::HashAlgorithm;
use crate::config::ConfigModule;
use crate::downloader::Downloader;
use crate::error::Error;
use crate::models::{releases_view, Asset, AssetView, Release, ReleaseView};
use crate::text::{
    before_first,
    before_first_str,
    ends_with,
    ends_with_str,
    last_segment,
    last_segment_str,
    starts_with,
    starts_with_str,
    str_eq,
};
use vstd::string::StringExecFns;

// The orchestrator: resolve a release, pick the asset to install by its
// archive suffix, discover the matching checksum asset by the
// base-filename-and-suffix rule, assemble the acquisition, and record
// installs in the bounded metadata cache.  The registry and the network
// are the surrounding program's concern; every decision made from their
// answers is specified and proved here.

/// A release with this entry's installed path recorded.
pub open spec fn with_installed(r: ReleaseView, dir: Seq<char>) -> ReleaseView {
    ReleaseView { installed_in: Some(dir), ..r }
}

/// Whether a cache record counts as installed.
pub open spec fn is_installed(r: ReleaseView) -> bool {
    r.installed_in is Some
}

/// Index of the first asset whose name ends with `suffix`, or the length
/// if none does.
pub open spec fn first_with_suffix(assets: Seq<AssetView>, suffix: Seq<char>) -> int
    decreases assets.len(),
{
    if assets.len() == 0 {
        0
    } else if ends_with(assets[0].name, suffix) {
        0
    } else {
        1 + first_with_suffix(assets.drop_first(), suffix)
    }
}

pub proof fn lemma_first_with_suffix(assets: Seq<AssetView>, suffix: Seq<char>)
    ensures
        0 <= first_with_suffix(assets, suffix) <= assets.len(),
        first_with_suffix(assets, suffix) < assets.len() ==> ends_with(
            assets[first_with_suffix(assets, suffix)].name,
            suffix,
        ),
        forall|k: int|
            0 <= k < first_with_suffix(assets, suffix) ==> !ends_with(
                #[trigger] assets[k].name,
                suffix,
            ),
    decreases assets.len(),
{
    if assets.len() != 0 && !ends_with(assets[0].name, suffix) {
        lemma_first_with_suffix(assets.drop_first(), suffix);
        assert(forall|k: int|
            1 <= k < assets.len() ==> #[trigger] assets[k] == assets.drop_first()[k - 1]);
    }
}

/// Which asset an install takes: the first whose name ends `.tar.gz`, and
/// failing that the first whose name ends `.tar.xz`.
pub open spec fn spec_get_asset(assets: Seq<AssetView>) -> Option<AssetView> {
    if first_with_suffix(assets, ".tar.gz"@) < assets.len() {
        Some(assets[first_with_suffix(assets, ".tar.gz"@)])
    } else if first_with_suffix(assets, ".tar.xz"@) < assets.len() {
        Some(assets[first_with_suffix(assets, ".tar.xz"@)])
    } else {
        None
    }
}

/// The file name an asset downloads under: the last path segment of its
/// download URL.
pub open spec fn spec_asset_filename(a: AssetView) -> Seq<char> {
    last_segment(a.browser_download_url)
}

/// Whether an asset is the checksum counterpart of a file: its own file
/// name starts with the file's base name (what precedes the first `.`)
/// and ends with the given checksum suffix.
pub open spec fn checksum_matches(a: AssetView, base: Seq<char>, suffix: Seq<char>) -> bool {
    starts_with(spec_asset_filename(a), base) && ends_with(spec_asset_filename(a), suffix)
}

/// Index of the first checksum counterpart under one suffix, or the
/// length if none.
pub open spec fn first_checksum_idx(assets: Seq<AssetView>, base: Seq<char>, suffix: Seq<char>) -> int
    decreases assets.len(),
{
    if assets.len() == 0 {
        0
    } else if checksum_matches(assets[0], base, suffix) {
        0
    } else {
        1 + first_checksum_idx(assets.drop_first(), base, suffix)
    }
}

pub proof fn lemma_first_checksum_idx(assets: Seq<AssetView>, base: Seq<char>, suffix: Seq<char>)
    ensures
        0 <= first_checksum_idx(assets, base, suffix) <= assets.len(),
        first_checksum_idx(assets, base, suffix) < assets.len() ==> checksum_matches(
            assets[first_checksum_idx(assets, base, suffix)],
            base,
            suffix,
        ),
        forall|k: int|
            0 <= k < first_checksum_idx(assets, base, suffix) ==> !checksum_matches(
                #[trigger] assets[k],
                base,
                suffix,
            ),
    decreases assets.len(),
{
    if assets.len() != 0 && !checksum_matches(assets[0], base, suffix) {
        lemma_first_checksum_idx(assets.drop_first(), base, suffix);
        assert(forall|k: int|
            1 <= k < assets.len() ==> #[trigger] assets[k] == assets.drop_first()[k - 1]);
    }
}

/// Which checksum asset and algorithm discovery settles on: the suffixes
/// are tried in one fixed order, strongest first, and within a suffix the
/// first matching asset wins.
pub open spec fn spec_discover_checksum(assets: Seq<AssetView>, base: Seq<char>) -> Option<
    (AssetView, HashAlgorithm),
> {
    if first_checksum_idx(assets, base, "sha512sum"@) < assets.len() {
        Some((assets[first_checksum_idx(assets, base, "sha512sum"@)], HashAlgorithm::Sha512))
    } else if first_checksum_idx(assets, base, "sha256sum"@) < assets.len() {
        Some((assets[first_checksum_idx(assets, base, "sha256sum"@)], HashAlgorithm::Sha256))
    } else if first_checksum_idx(assets, base, "sha1sum"@) < assets.len() {
        Some((assets[first_checksum_idx(assets, base, "sha1sum"@)], HashAlgorithm::Sha1))
    } else if first_checksum_idx(assets, base, "md5sum"@) < assets.len() {
        Some((assets[first_checksum_idx(assets, base, "md5sum"@)], HashAlgorithm::Md5))
    } else {
        None
    }
}

/// Find the first asset whose file name starts with `base` and ends with
/// `suffix`.
fn find_checksum_asset(assets: &Vec<Asset>, base: &str, suffix: &str) -> (r: Option<usize>)
    ensures
        match r {
            Some(i) => i == first_checksum_idx(crate::models::assets_view(assets@), base@, suffix@)
                && i < assets@.len(),
            None => first_checksum_idx(crate::models::assets_view(assets@), base@, suffix@)
                == assets@.len(),
        },
{
    let ghost av = crate::models::assets_view(assets@);
    proof {
        lemma_first_checksum_idx(av, base@, suffix@);
    }
    let mut i: usize = 0;
    while i < assets.len()
        invariant
            i <= assets@.len(),
            av == crate::models::assets_view(assets@),
            forall|k: int| 0 <= k < i ==> !checksum_matches(#[trigger] av[k], base@, suffix@),
        decreases assets@.len() - i,
    {
        let name = last_segment_str(assets[i].browser_download_url.as_str());
        if starts_with_str(name.as_str(), base) && ends_with_str(name.as_str(), suffix) {
            proof {
                lemma_first_checksum_idx(av, base@, suffix@);
                assert(av[i as int] == assets@[i as int]@);
                assert(checksum_matches(av[i as int], base@, suffix@));
            }
            return Some(i);
        }
        proof {
            assert(av[i as int] == assets@[i as int]@);
        }
        i += 1;
    }
    proof {
        lemma_first_checksum_idx(av, base@, suffix@);
    }
    None
}

/// Whether a character separates checksum-file tokens.
pub open spec fn is_space(c: char) -> bool {
    c == ' ' || c == '\t' || c == '\n' || c == '\r'
}

/// The run of non-space characters `s` opens with.
pub open spec fn leading_token(s: Seq<char>) -> Seq<char>
    decreases s.len(),
{
    if s.len() == 0 || is_space(s[0]) {
        Seq::empty()
    } else {
        seq![s[0]] + leading_token(s.drop_first())
    }
}

/// The first whitespace-separated token of `s`, or `None` when `s` holds
/// only whitespace.
pub open spec fn spec_first_token(s: Seq<char>) -> Option<Seq<char>>
    decreases s.len(),
{
    if s.len() == 0 {
        None
    } else if is_space(s[0]) {
        spec_first_token(s.drop_first())
    } else {
        Some(leading_token(s))
    }
}

/// Skipping leading whitespace leaves the first token unchanged.
proof fn lemma_first_token_skip(s: Seq<char>, i: int)
    requires
        0 <= i <= s.len(),
        forall|k: int| 0 <= k < i ==> is_space(#[trigger] s[k]),
    ensures
        spec_first_token(s) == spec_first_token(s.skip(i)),
    decreases i,
{
    if i == 0 {
        assert(s.skip(0) =~= s);
    } else {
        assert(s.len() > 0 && is_space(s[0]));
        let rest = s.drop_first();
        assert(forall|k: int| 0 <= k < i - 1 ==> #[trigger] rest[k] == s[k + 1]);
        lemma_first_token_skip(rest, i - 1);
        assert(rest.skip(i - 1) =~= s.skip(i));
    }
}

/// A token runs to the first space after its start.
proof fn lemma_leading_token(s: Seq<char>, j: int)
    requires
        0 <= j <= s.len(),
        forall|k: int| 0 <= k < j ==> !is_space(#[trigger] s[k]),
        j == s.len() || is_space(s[j]),
    ensures
        leading_token(s) == s.take(j),
    decreases j,
{
    if j == 0 {
        assert(s.take(0) =~= Seq::<char>::empty());
    } else {
        assert(s.len() > 0 && !is_space(s[0]));
        let rest = s.drop_first();
        assert(forall|k: int| 0 <= k < j - 1 ==> #[trigger] rest[k] == s[k + 1]);
        lemma_leading_token(rest, j - 1);
        assert(seq![s[0]] + rest.take(j - 1) =~= s.take(j));
    }
}

/// The first whitespace-separated token of a checksum file's text: the
/// digest, by the documented format (digest first, file name later).
/// Fails with a not-found error exactly when the text holds no token.
pub fn parse_checksum_text(text: &str) -> (r: Result<String, Error>)
    ensures
        match r {
            Ok(t) => spec_first_token(text@) == Some(t@),
            Err(e) => spec_first_token(text@) is None && e is NotFound,
        },
{
    let n = text.unicode_len();
    let mut i: usize = 0;
    while i < n
        invariant
            i <= n,
            n == text@.len(),
            forall|k: int| 0 <= k < i ==> is_space(#[trigger] text@[k]),
        ensures
            i <= n,
            n == text@.len(),
            forall|k: int| 0 <= k < i ==> is_space(#[trigger] text@[k]),
            i == n || !is_space(text@[i as int]),
        decreases n - i,
    {
        let c = text.get_char(i);
        if !(c == ' ' || c == '\t' || c == '\n' || c == '\r') {
            break ;
        }
        i += 1;
    }
    proof {
        lemma_first_token_skip(text@, i as int);
    }
    if i == n {
        proof {
            assert(text@.skip(n as int).len() == 0);
        }
        return Err(Error::NotFound(String::from_str("checksum digest in checksum file")));
    }
    let mut j: usize = i;
    while j < n
        invariant
            i <= j <= n,
            n == text@.len(),
            forall|k: int| i <= k < j ==> !is_space(#[trigger] text@[k]),
        ensures
            i <= j <= n,
            n == text@.len(),
            forall|k: int| i <= k < j ==> !is_space(#[trigger] text@[k]),
            j == n || is_space(text@[j as int]),
        decreases n - j,
    {
        let c = text.get_char(j);
        if c == ' ' || c == '\t' || c == '\n' || c == '\r' {
            break ;
        }
        j += 1;
    }
    let token = text.substring_char(i, j).to_owned();
    proof {
        let tail = text@.skip(i as int);
        assert(!is_space(tail[0]));
        assert(spec_first_token(tail) == Some(leading_token(tail)));
        assert(forall|k: int| 0 <= k < j - i ==> #[trigger] tail[k] == text@[k + i]);
        assert(j == n || is_space(tail[j - i]));
        lemma_leading_token(tail, j - i);
        assert(tail.take(j - i) =~= text@.subrange(i as int, j as int));
    }
    Ok(token)
}

/// The manager for one configured module: its repository and directories,
/// and the bounded metadata cache of known releases.
#[derive(Debug)]
pub struct ProtonManager {
    pub config: ConfigModule,
    pub releases_cache: Cache,
}

impl ProtonManager {
    /// Well-formed: the metadata cache is.
    pub open spec fn inv(&self) -> bool {
        self.releases_cache.inv()
    }

    pub fn new(config: ConfigModule, releases_cache: Cache) -> (r: Self)
        ensures
            r.config@ == config@,
            r.releases_cache == releases_cache,
    {
        ProtonManager { config, releases_cache }
    }

    /// The releases the cache records as installed, newest first.
    pub fn get_installed_releases(&self) -> (r: Vec<Release>)
        requires
            self.inv(),
        ensures
            releases_view(r@) == self.releases_cache@.filter(|rv: ReleaseView| is_installed(rv)),
    {
        let all = self.releases_cache.get();
        let mut r: Vec<Release> = Vec::new();
        let mut i: usize = 0;
        while i < all.len()
            invariant
                i <= all@.len(),
                releases_view(all@) == self.releases_cache@,
                releases_view(r@) == releases_view(all@).take(i as int).filter(
                    |rv: ReleaseView| is_installed(rv),
                ),
            decreases all@.len() - i,
        {
            let ghost prefix = releases_view(all@).take(i as int);
            let keep = all[i].installed_in.is_some();
            if keep {
                let item = all[i].clone();
                r.push(item);
            }
            proof {
                reveal(Seq::filter);
                let next = releases_view(all@).take(i + 1);
                assert(next.drop_last() =~= prefix);
                assert(next.last() == releases_view(all@)[i as int]);
                assert(releases_view(all@)[i as int] == all@[i as int]@);
                assert(next.filter(|rv: ReleaseView| is_installed(rv)) == prefix.filter(
                    |rv: ReleaseView| is_installed(rv),
                ) + if is_installed(all@[i as int]@) {
                    seq![all@[i as int]@]
                } else {
                    Seq::<ReleaseView>::empty()
                });
                if keep {
                    assert(releases_view(r@) =~= prefix.filter(|rv: ReleaseView| is_installed(rv))
                        + seq![all@[i as int]@]);
                } else {
                    assert(releases_view(r@) =~= prefix.filter(
                        |rv: ReleaseView| is_installed(rv),
                    ) + Seq::<ReleaseView>::empty());
                }
            }
            i += 1;
        }
        proof {
            assert(releases_view(all@).take(all@.len() as int) =~= releases_view(all@));
        }
        r
    }

    /// Merge releases fetched from the registry into the metadata cache:
    /// fetching is additive, evicting only by capacity.
    pub fn record_fetched_releases(&mut self, releases: Vec<Release>)
        requires
            old(self).inv(),
        ensures
            final(self).releases_cache@ == spec_trim(
                spec_upsert_all(old(self).releases_cache@, releases_view(releases@)),
                old(self).releases_cache.capacity(),
            ),
            final(self).inv(),
            final(self).config@ == old(self).config@,
            final(self).releases_cache.capacity() == old(self).releases_cache.capacity(),
    {
        self.releases_cache.add_range(releases);
    }

    /// The asset an install takes from a release: the first `.tar.gz`
    /// asset, else the first `.tar.xz` asset, else a not-found error
    /// naming what was searched for.
    pub fn get_asset(&self, release: &Release) -> (r: Result<Asset, Error>)
        ensures
            match r {
                Ok(a) => spec_get_asset(release@.assets) == Some(a@),
                Err(e) => spec_get_asset(release@.assets) is None && e is NotFound,
            },
    {
        let ghost av = release@.assets;
        proof {
            lemma_first_with_suffix(av, ".tar.gz"@);
            lemma_first_with_suffix(av, ".tar.xz"@);
        }
        let mut i: usize = 0;
        while i < release.assets.len()
            invariant
                i <= release.assets@.len(),
                av == release@.assets,
                forall|k: int| 0 <= k < i ==> !ends_with(#[trigger] av[k].name, ".tar.gz"@),
            decreases release.assets@.len() - i,
        {
            proof {
                assert(av[i as int] == release.assets@[i as int]@);
            }
            if ends_with_str(release.assets[i].name.as_str(), ".tar.gz") {
                proof {
                    assert(ends_with(av[i as int].name, ".tar.gz"@));
                    lemma_first_with_suffix(av, ".tar.gz"@);
                    assert(first_with_suffix(av, ".tar.gz"@) == i);
                }
                return Ok(release.assets[i].clone());
            }
            i += 1;
        }
        let mut i: usize = 0;
        while i < release.assets.len()
            invariant
                i <= release.assets@.len(),
                av == release@.assets,
                first_with_suffix(av, ".tar.gz"@) == av.len(),
                forall|k: int| 0 <= k < i ==> !ends_with(#[trigger] av[k].name, ".tar.xz"@),
            decreases release.assets@.len() - i,
        {
            proof {
                assert(av[i as int] == release.assets@[i as int]@);
            }
            if ends_with_str(release.assets[i].name.as_str(), ".tar.xz") {
                proof {
                    assert(ends_with(av[i as int].name, ".tar.xz"@));
                    lemma_first_with_suffix(av, ".tar.xz"@);
                    assert(first_with_suffix(av, ".tar.xz"@) == i);
                }
                return Ok(release.assets[i].clone());
            }
            i += 1;
        }
        proof {
            lemma_first_with_suffix(av, ".tar.xz"@);
        }
        Err(Error::NotFound(String::from_str("a supported asset in the release")))
    }

    /// The file name the asset downloads under.
    pub fn asset_filename(asset: &Asset) -> (r: String)
        ensures
            r@ == spec_asset_filename(asset@),
    {
        last_segment_str(asset.browser_download_url.as_str())
    }

    /// Discover the checksum counterpart of `filename` among the
    /// release's assets: base name before the first `.`, one fixed suffix
    /// order, first match wins.  Returns the checksum asset's download
    /// URL and the algorithm its suffix names, or a not-found error.
    pub fn discover_checksum(&self, release: &Release, filename: &str) -> (r: Result<
        (String, HashAlgorithm),
        Error,
    >)
        ensures
            match r {
                Ok((url, algo)) => (match spec_discover_checksum(
                    release@.assets,
                    before_first(filename@, '.'),
                ) {
                    Some((a, sa)) => a.browser_download_url == url@ && sa == algo,
                    None => false,
                }),
                Err(e) => spec_discover_checksum(release@.assets, before_first(filename@, '.'))
                    is None && e is NotFound,
            },
    {
        let base = before_first_str(filename, '.');
        match find_checksum_asset(&release.assets, base.as_str(), "sha512sum") {
            Some(i) => {
                proof {
                    assert(crate::models::assets_view(release.assets@)[i as int]
                        == release.assets@[i as int]@);
                }
                return Ok((release.assets[i].browser_download_url.clone(), HashAlgorithm::Sha512));
            },
            None => {},
        }
        match find_checksum_asset(&release.assets, base.as_str(), "sha256sum") {
            Some(i) => {
                proof {
                    assert(crate::models::assets_view(release.assets@)[i as int]
                        == release.assets@[i as int]@);
                }
                return Ok((release.assets[i].browser_download_url.clone(), HashAlgorithm::Sha256));
            },
            None => {},
        }
        match find_checksum_asset(&release.assets, base.as_str(), "sha1sum") {
            Some(i) => {
                proof {
                    assert(crate::models::assets_view(release.assets@)[i as int]
                        == release.assets@[i as int]@);
                }
                return Ok((release.assets[i].browser_download_url.clone(), HashAlgorithm::Sha1));
            },
            None => {},
        }
        match find_checksum_asset(&release.assets, base.as_str(), "md5sum") {
            Some(i) => {
                proof {
                    assert(crate::models::assets_view(release.assets@)[i as int]
                        == release.assets@[i as int]@);
                }
                return Ok((release.assets[i].browser_download_url.clone(), HashAlgorithm::Md5));
            },
            None => {},
        }
        Err(Error::NotFound(String::from_str("a checksum file in the release")))
    }

    /// Assemble the acquisition for an asset: download to the cache
    /// directory under the asset's file name, probe the cache first, and
    /// verify under the discovered digest, removing a failed download.
    pub fn make_downloader(&self, asset: &Asset, checksum: String, algorithm: HashAlgorithm) -> (r:
        Downloader)
        ensures
            r.download is Some,
            r.download->0.url@ == asset@.browser_download_url,
            r.download->0.destination@ == crate::text::join_path_spec(
                self.config@.cache_dir,
                spec_asset_filename(asset@),
            ),
            r.cache is Some <==> last_segment(r.download->0.destination@).len() > 0,
            r.cache is Some ==> r.cache->0.cache_path@ == crate::text::join_path_spec(
                self.config@.cache_dir,
                last_segment(r.download->0.destination@),
            ),
            r.verify is Some,
            r.verify->0.checksum@ == checksum@,
            r.verify->0.checksum_algorithm == algorithm,
            r.verify->0.remove_failed,
    {
        let filename = Self::asset_filename(asset);
        let destination = crate::text::join_path(self.config.cache_dir.as_str(), filename.as_str());
        Downloader::new(
            Some(asset.browser_download_url.clone()),
            Some(destination),
            Some(self.config.cache_dir.clone()),
            Some(checksum),
            Some(algorithm),
            true,
        )
    }

    /// Record a completed install: the release enters the cache with the
    /// configured install directory as its installed path, replacing any
    /// entry of its identity.
    pub fn record_install(&mut self, release: Release)
        requires
            old(self).inv(),
        ensures
            final(self).releases_cache@ == spec_trim(
                spec_upsert(
                    old(self).releases_cache@,
                    with_installed(release@, old(self).config@.install_dir),
                ),
                old(self).releases_cache.capacity(),
            ),
            final(self).inv(),
            final(self).config@ == old(self).config@,
            final(self).releases_cache.capacity() == old(self).releases_cache.capacity(),
    {
        let mut release = release;
        release.installed_in = Some(self.config.install_dir.clone());
        proof {
            assert(release@ =~= with_installed(release@, self.config@.install_dir));
        }
        self.releases_cache.add(release);
    }
}

/// A cache none of whose records is installed lists nothing as
/// installed.
pub proof fn lemma_no_installed_filter(s: Seq<ReleaseView>)
    requires
        forall|i: int| 0 <= i < s.len() ==> !is_installed(#[trigger] s[i]),
    ensures
        s.filter(|rv: ReleaseView| is_installed(rv)) == Seq::<ReleaseView>::empty(),
    decreases s.len(),
{
    reveal(Seq::filter);
    if s.len() > 0 {
        assert(forall|k: int| 0 <= k < s.len() - 1 ==> #[trigger] s.drop_last()[k] == s[k]);
        lemma_no_installed_filter(s.drop_last());
    }
}

/// Merging one installed record into a sorted cache of uninstalled
/// records leaves exactly that record installed.
proof fn lemma_filter_upsert_single(s: Seq<ReleaseView>, ri: ReleaseView)
    requires
        crate::cache::sorted_newest_first(s),
        forall|i: int| 0 <= i < s.len() ==> !is_installed(#[trigger] s[i]),
        is_installed(ri),
    ensures
        spec_upsert(s, ri).filter(|rv: ReleaseView| is_installed(rv)) == seq![ri],
    decreases s.len(),
{
    reveal(Seq::filter);
    let pred = |rv: ReleaseView| is_installed(rv);
    assert(seq![ri].drop_last() =~= Seq::<ReleaseView>::empty());
    assert(seq![ri].filter(pred) =~= seq![ri]);
    if s.len() == 0 {
    } else if crate::models::same_identity(s[0], ri) {
        let rest = s.drop_first();
        assert(forall|k: int| 0 <= k < rest.len() ==> #[trigger] rest[k] == s[k + 1]);
        lemma_no_installed_filter(rest);
        Seq::filter_distributes_over_add(seq![ri], rest, pred);
        assert(seq![ri] + rest.filter(pred) =~= seq![ri]);
    } else if crate::models::release_older(s[0], ri) {
        lemma_no_installed_filter(s);
        Seq::filter_distributes_over_add(seq![ri], s, pred);
        assert(seq![ri] + s.filter(pred) =~= seq![ri]);
    } else {
        let rest = s.drop_first();
        assert(forall|k: int| 0 <= k < rest.len() ==> #[trigger] rest[k] == s[k + 1]);
        crate::cache::lemma_sorted_drop_first(s);
        lemma_filter_upsert_single(rest, ri);
        assert(seq![s[0]].drop_last() =~= Seq::<ReleaseView>::empty());
        assert(seq![s[0]].filter(pred) =~= Seq::<ReleaseView>::empty());
        Seq::filter_distributes_over_add(seq![s[0]], spec_upsert(rest, ri), pred);
        assert(Seq::<ReleaseView>::empty() + spec_upsert(rest, ri).filter(pred) =~= seq![ri]);
    }
}

/// Before any install the installed listing is empty; after one
/// successful install into a cache with room, it holds exactly that
/// release, marked with its install directory.
pub proof fn lemma_installed_listing_after_install(
    s: Seq<ReleaseView>,
    r: ReleaseView,
    dir: Seq<char>,
    cap: nat,
)
    requires
        crate::cache::sorted_newest_first(s),
        forall|i: int| 0 <= i < s.len() ==> !is_installed(#[trigger] s[i]),
        s.len() < cap,
    ensures
        s.filter(|rv: ReleaseView| is_installed(rv)) == Seq::<ReleaseView>::empty(),
        spec_trim(spec_upsert(s, with_installed(r, dir)), cap).filter(
            |rv: ReleaseView| is_installed(rv),
        ) == seq![with_installed(r, dir)],
{
    lemma_no_installed_filter(s);
    let ri = with_installed(r, dir);
    lemma_filter_upsert_single(s, ri);
    crate::cache::lemma_upsert_props(s, ri);
    assert(spec_upsert(s, ri).len() <= cap);
}

/// What a comparison of the newest known release against the newest
/// installed one concludes.
#[derive(Debug)]
pub enum UpdateStatus {
    /// The registry reported no releases at all.
    NoReleases,
    /// Nothing is installed yet.
    NotInstalled { latest_tag: String },
    /// The newest release differs from the installed one.
    UpdateAvailable { latest_tag: String, installed_tag: String },
    /// The installed release is the newest.
    UpToDate { tag: String },
}

/// Compare the newest known release with the newest installed one.
pub fn update_status(latest: Option<&Release>, installed: Option<&Release>) -> (r: UpdateStatus)
    ensures
        latest is None ==> r is NoReleases,
        latest is Some && installed is None ==> (r matches UpdateStatus::NotInstalled { latest_tag }
            && latest_tag@ == latest->0.tag_name@),
        latest is Some && installed is Some && latest->0.tag_name@ != installed->0.tag_name@ ==> (
        r matches UpdateStatus::UpdateAvailable { latest_tag, installed_tag } && latest_tag@
            == latest->0.tag_name@ && installed_tag@ == installed->0.tag_name@),
        latest is Some && installed is Some && latest->0.tag_name@ == installed->0.tag_name@ ==> (
        r matches UpdateStatus::UpToDate { tag } && tag@ == latest->0.tag_name@),
{
    match (latest, installed) {
        (None, _) => UpdateStatus::NoReleases,
        (Some(l), None) => UpdateStatus::NotInstalled { latest_tag: l.tag_name.clone() },
        (Some(l), Some(ins)) => {
            if str_eq(l.tag_name.as_str(), ins.tag_name.as_str()) {
                UpdateStatus::UpToDate { tag: l.tag_name.clone() }
            } else {
                UpdateStatus::UpdateAvailable {
                    latest_tag: l.tag_name.clone(),
                    installed_tag: ins.tag_name.clone(),
                }
            }
        },
    }
}

} // verus!
