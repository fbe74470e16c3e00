use vstd::prelude::*;

verus! {

use crate::text::{chars_lt, str_eq};

// Release metadata as reported by the release registry: a release owns an
// ordered list of assets, and equality and ordering of releases rest on the
// identity pair (tag, publish timestamp) alone.  Timestamps are plain values
// (seconds since the epoch); absent optional fields stay absent rather than
// becoming zero.

/// The mathematical value of an [`Asset`].
#[verifier::ext_equal]
pub struct AssetView {
    pub name: Seq<char>,
    pub browser_download_url: Seq<char>,
    pub updated_at: i64,
}

/// A downloadable file attached to a release: a name (which carries the
/// extension used for type and checksum discovery), a download URL, and the
/// time it was last updated.
#[derive(Debug)]
pub struct Asset {
    pub name: String,
    pub browser_download_url: String,
    pub updated_at: i64,
}

impl View for Asset {
    type V = AssetView;

    open spec fn view(&self) -> AssetView {
        AssetView {
            name: self.name@,
            browser_download_url: self.browser_download_url@,
            updated_at: self.updated_at,
        }
    }
}

impl Clone for Asset {
    fn clone(&self) -> (res: Self)
        ensures
            res@ == self@,
    {
        Asset {
            name: self.name.clone(),
            browser_download_url: self.browser_download_url.clone(),
            updated_at: self.updated_at,
        }
    }
}

/// The mathematical value of a [`Release`].
#[verifier::ext_equal]
pub struct ReleaseView {
    pub name: Option<Seq<char>>,
    pub tag_name: Seq<char>,
    pub created_at: Option<i64>,
    pub published_at: Option<i64>,
    pub assets: Seq<AssetView>,
    pub installed_in: Option<Seq<char>>,
}

/// One versioned release: identity is the pair (tag, publish timestamp);
/// every other field is an attribute.  `installed_in` is set once, after a
/// successful install, and is the only field that changes after construction.
#[derive(Debug)]
pub struct Release {
    pub name: Option<String>,
    pub tag_name: String,
    pub created_at: Option<i64>,
    pub published_at: Option<i64>,
    pub assets: Vec<Asset>,
    pub installed_in: Option<String>,
}

/// The values of a sequence of assets.
pub open spec fn assets_view(v: Seq<Asset>) -> Seq<AssetView> {
    v.map_values(|a: Asset| a@)
}

/// The values of a sequence of releases.
pub open spec fn releases_view(v: Seq<Release>) -> Seq<ReleaseView> {
    v.map_values(|r: Release| r@)
}

impl View for Release {
    type V = ReleaseView;

    open spec fn view(&self) -> ReleaseView {
        ReleaseView {
            name: match self.name {
                Some(n) => Some(n@),
                None => None,
            },
            tag_name: self.tag_name@,
            created_at: self.created_at,
            published_at: self.published_at,
            assets: assets_view(self.assets@),
            installed_in: match self.installed_in {
                Some(p) => Some(p@),
                None => None,
            },
        }
    }
}

fn clone_opt_string(o: &Option<String>) -> (r: Option<String>)
    ensures
        match (o, &r) {
            (Some(a), Some(b)) => a@ == b@,
            (None, None) => true,
            _ => false,
        },
{
    match o {
        Some(s) => Some(s.clone()),
        None => None,
    }
}

/// Element-for-element copy of an asset list, preserving every value.
pub fn clone_assets(v: &Vec<Asset>) -> (r: Vec<Asset>)
    ensures
        assets_view(r@) == assets_view(v@),
{
    let mut r: Vec<Asset> = Vec::new();
    let mut i: usize = 0;
    while i < v.len()
        invariant
            i <= v@.len(),
            r@.len() == i,
            forall|k: int| 0 <= k < i ==> #[trigger] r@[k]@ == v@[k]@,
        decreases v@.len() - i,
    {
        let a = v[i].clone();
        r.push(a);
        i += 1;
    }
    proof {
        assert(assets_view(r@) =~= assets_view(v@));
    }
    r
}

impl Clone for Release {
    fn clone(&self) -> (res: Self)
        ensures
            res@ == self@,
    {
        let res = Release {
            name: clone_opt_string(&self.name),
            tag_name: self.tag_name.clone(),
            created_at: self.created_at,
            published_at: self.published_at,
            assets: clone_assets(&self.assets),
            installed_in: clone_opt_string(&self.installed_in),
        };
        proof {
            assert(res@ =~= self@);
        }
        res
    }
}

/// Two releases are the same cache entry exactly when tag and publish
/// timestamp agree; asset lists and attributes play no part.
pub open spec fn same_identity(a: ReleaseView, b: ReleaseView) -> bool {
    a.tag_name == b.tag_name && a.published_at == b.published_at
}

/// Order on optional publish timestamps: a missing timestamp is older than
/// any present one.
pub open spec fn time_lt(a: Option<i64>, b: Option<i64>) -> bool {
    match (a, b) {
        (None, None) => false,
        (None, Some(_)) => true,
        (Some(_), None) => false,
        (Some(x), Some(y)) => x < y,
    }
}

/// Strictly older-than: earlier publish timestamp, with ties broken by tag,
/// so that the order is total over distinct identities.
pub open spec fn release_older(a: ReleaseView, b: ReleaseView) -> bool {
    time_lt(a.published_at, b.published_at) || (a.published_at == b.published_at && chars_lt(
        a.tag_name,
        b.tag_name,
    ))
}

pub fn same_identity_exec(a: &Release, b: &Release) -> (r: bool)
    ensures
        r == same_identity(a@, b@),
{
    if !str_eq(a.tag_name.as_str(), b.tag_name.as_str()) {
        return false;
    }
    match (a.published_at, b.published_at) {
        (None, None) => true,
        (Some(x), Some(y)) => x == y,
        _ => false,
    }
}

pub fn release_older_exec(a: &Release, b: &Release) -> (r: bool)
    ensures
        r == release_older(a@, b@),
{
    match (a.published_at, b.published_at) {
        (None, None) => crate::text::lex_lt_str(a.tag_name.as_str(), b.tag_name.as_str()),
        (None, Some(_)) => true,
        (Some(_), None) => false,
        (Some(x), Some(y)) => {
            if x < y {
                true
            } else if x == y {
                crate::text::lex_lt_str(a.tag_name.as_str(), b.tag_name.as_str())
            } else {
                false
            }
        },
    }
}

} // verus!
