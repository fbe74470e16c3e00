use vstd::prelude::*;

verus! {

use crate::models::{
    Release,
    ReleaseView,
    releases_view,
    same_identity,
    release_older,
    same_identity_exec,
    release_older_exec,
};
use crate::text::{lemma_chars_lt_irreflexive, lemma_chars_lt_total, lemma_chars_lt_transitive};

// A bounded, persisted, set-like store of release records, keyed by the
// identity pair (tag, publish timestamp).  The in-memory list is kept
// strictly sorted newest-first; inserting an identity that is already
// present replaces it, and once the list would exceed its capacity the
// oldest entries are discarded.  Reading the file and writing it back is
// the surrounding program's concern; what the store holds after every
// operation is pinned down here.

/// Strictly sorted, newest first: every later entry is strictly older.
pub open spec fn sorted_newest_first(s: Seq<ReleaseView>) -> bool {
    forall|i: int, j: int| 0 <= i < j < s.len() ==> release_older(s[j], s[i])
}

/// The canonical result of merging one record into a newest-first list:
/// a colliding identity is replaced in place, otherwise the record enters
/// at its sorted position.
pub open spec fn spec_upsert(s: Seq<ReleaseView>, r: ReleaseView) -> Seq<ReleaseView>
    decreases s.len(),
{
    if s.len() == 0 {
        seq![r]
    } else if same_identity(s[0], r) {
        seq![r] + s.drop_first()
    } else if release_older(s[0], r) {
        seq![r] + s
    } else {
        seq![s[0]] + spec_upsert(s.drop_first(), r)
    }
}

/// Merging a whole sequence of records, first to last.
pub open spec fn spec_upsert_all(s: Seq<ReleaseView>, items: Seq<ReleaseView>) -> Seq<ReleaseView>
    decreases items.len(),
{
    if items.len() == 0 {
        s
    } else {
        spec_upsert_all(spec_upsert(s, items[0]), items.drop_first())
    }
}

/// Capacity enforcement: a list longer than `cap` keeps only its first
/// (newest) `cap` entries.
pub open spec fn spec_trim(s: Seq<ReleaseView>, cap: nat) -> Seq<ReleaseView> {
    if s.len() <= cap {
        s
    } else {
        s.take(cap as int)
    }
}

/// Whether some entry of `s` has the identity of `r`.
pub open spec fn has_identity(s: Seq<ReleaseView>, r: ReleaseView) -> bool {
    exists|i: int| 0 <= i < s.len() && same_identity(s[i], r)
}

/// Two records of one identity order identically against anything.
proof fn lemma_same_identity_order(a: ReleaseView, b: ReleaseView, x: ReleaseView)
    requires
        same_identity(a, b),
    ensures
        release_older(x, a) == release_older(x, b),
        release_older(a, x) == release_older(b, x),
{
}

/// The order ignores everything but the identity pair, and is irreflexive
/// on it.
proof fn lemma_same_identity_not_older(a: ReleaseView, b: ReleaseView)
    requires
        same_identity(a, b),
    ensures
        !release_older(a, b),
        !release_older(b, a),
{
    lemma_chars_lt_irreflexive(a.tag_name);
}

/// Strictly-older is transitive.
pub proof fn lemma_release_older_transitive(a: ReleaseView, b: ReleaseView, c: ReleaseView)
    requires
        release_older(a, b),
        release_older(b, c),
    ensures
        release_older(a, c),
{
    if a.published_at == b.published_at && b.published_at == c.published_at {
        lemma_chars_lt_transitive(a.tag_name, b.tag_name, c.tag_name);
    }
}

/// Over distinct identities the order is total.
pub proof fn lemma_release_older_total(a: ReleaseView, b: ReleaseView)
    requires
        !same_identity(a, b),
    ensures
        release_older(a, b) || release_older(b, a),
{
    if a.published_at == b.published_at {
        lemma_chars_lt_total(a.tag_name, b.tag_name);
    }
}

/// A sorted list stays sorted when its head is removed.
pub proof fn lemma_sorted_drop_first(s: Seq<ReleaseView>)
    requires
        s.len() > 0,
        sorted_newest_first(s),
    ensures
        sorted_newest_first(s.drop_first()),
{
    assert(forall|i: int, j: int|
        0 <= i < j < s.len() - 1 ==> release_older(
            #[trigger] s.drop_first()[j],
            #[trigger] s.drop_first()[i],
        ));
}

/// What merging one record yields: still sorted, the record present, the
/// size grown by one exactly when the identity was new, everything else
/// kept, and nothing invented.
pub proof fn lemma_upsert_props(s: Seq<ReleaseView>, r: ReleaseView)
    requires
        sorted_newest_first(s),
    ensures
        sorted_newest_first(spec_upsert(s, r)),
        spec_upsert(s, r).contains(r),
        has_identity(s, r) ==> spec_upsert(s, r).len() == s.len(),
        !has_identity(s, r) ==> spec_upsert(s, r).len() == s.len() + 1,
        forall|x: ReleaseView|
            #[trigger] spec_upsert(s, r).contains(x) ==> x == r || (s.contains(x)
                && !same_identity(x, r)),
        forall|x: ReleaseView|
            s.contains(x) && !same_identity(x, r) ==> #[trigger] spec_upsert(s, r).contains(x),
    decreases s.len(),
{
    let out = spec_upsert(s, r);
    if s.len() == 0 {
        assert(out == seq![r]);
        assert(out[0] == r);
        assert(out.contains(r));
        assert(forall|x: ReleaseView| #[trigger] out.contains(x) ==> x == r);
    } else if same_identity(s[0], r) {
        assert(out == seq![r] + s.drop_first());
        assert(out[0] == r);
        assert(out.contains(r));
        lemma_sorted_drop_first(s);
        assert forall|i: int, j: int| 0 <= i < j < out.len() implies release_older(
            out[j],
            out[i],
        ) by {
            if i == 0 {
                assert(out[j] == s[j]);
                assert(release_older(s[j], s[0]));
                lemma_same_identity_order(s[0], r, s[j]);
            } else {
                assert(out[i] == s[i] && out[j] == s[j]);
            }
        }
        // no later entry shares the identity, because later entries are
        // strictly older than s[0], which has r's sort key
        assert forall|i: int| 0 < i < s.len() implies !same_identity(s[i], r) by {
            if same_identity(s[i], r) {
                lemma_same_identity_order(s[i], r, s[0]);
                lemma_same_identity_not_older(s[0], r);
                assert(release_older(s[i], s[0]));
                lemma_same_identity_order(s[0], r, s[i]);
                assert(false);
            }
        }
        assert(has_identity(s, r));
        assert(out.len() == s.len());
        assert forall|x: ReleaseView| #[trigger] out.contains(x) implies x == r || (s.contains(x)
            && !same_identity(x, r)) by {
            let k = choose|k: int| 0 <= k < out.len() && out[k] == x;
            if k > 0 {
                assert(x == s[k]);
                assert(s.contains(x));
            }
        }
        assert forall|x: ReleaseView| s.contains(x) && !same_identity(x, r) implies
            #[trigger] out.contains(x) by {
            let k = choose|k: int| 0 <= k < s.len() && s[k] == x;
            assert(k != 0);
            assert(out[k] == s[k]);
        }
    } else if release_older(s[0], r) {
        assert(out == seq![r] + s);
        assert(out[0] == r);
        assert(out.contains(r));
        assert forall|i: int, j: int| 0 <= i < j < out.len() implies release_older(
            out[j],
            out[i],
        ) by {
            if i == 0 {
                assert(out[j] == s[j - 1]);
                if j - 1 > 0 {
                    assert(release_older(s[j - 1], s[0]));
                    lemma_release_older_transitive(s[j - 1], s[0], r);
                }
            } else {
                assert(out[i] == s[i - 1] && out[j] == s[j - 1]);
            }
        }
        assert forall|i: int| 0 <= i < s.len() implies !same_identity(s[i], r) by {
            if same_identity(s[i], r) {
                if i == 0 {
                    lemma_same_identity_not_older(s[0], r);
                } else {
                    assert(release_older(s[i], s[0]));
                    lemma_release_older_transitive(s[i], s[0], r);
                    lemma_same_identity_not_older(s[i], r);
                    assert(false);
                }
            }
        }
        assert(!has_identity(s, r));
        assert(out.len() == s.len() + 1);
        assert forall|x: ReleaseView| #[trigger] out.contains(x) implies x == r || (s.contains(x)
            && !same_identity(x, r)) by {
            let k = choose|k: int| 0 <= k < out.len() && out[k] == x;
            if k > 0 {
                assert(x == s[k - 1]);
                assert(s.contains(x));
            }
        }
        assert forall|x: ReleaseView| s.contains(x) && !same_identity(x, r) implies
            #[trigger] out.contains(x) by {
            let k = choose|k: int| 0 <= k < s.len() && s[k] == x;
            assert(out[k + 1] == s[k]);
        }
    } else {
        let rest = s.drop_first();
        lemma_sorted_drop_first(s);
        lemma_upsert_props(rest, r);
        let sub = spec_upsert(rest, r);
        assert(out == seq![s[0]] + sub);
        assert(out.contains(r)) by {
            let k = choose|k: int| 0 <= k < sub.len() && sub[k] == r;
            assert(out[k + 1] == sub[k]);
        }
        // r is strictly older than the head here
        assert(!same_identity(s[0], r) && !release_older(s[0], r));
        lemma_release_older_total(s[0], r);
        assert(release_older(r, s[0]));
        assert forall|i: int, j: int| 0 <= i < j < out.len() implies release_older(
            out[j],
            out[i],
        ) by {
            if i == 0 {
                assert(out[j] == sub[j - 1]);
                assert(sub.contains(sub[j - 1]));
                if sub[j - 1] == r {
                    assert(release_older(r, s[0]));
                } else {
                    assert(rest.contains(sub[j - 1]));
                    let k = choose|k: int| 0 <= k < rest.len() && rest[k] == sub[j - 1];
                    assert(rest[k] == s[k + 1]);
                    assert(release_older(s[k + 1], s[0]));
                }
            } else {
                assert(out[i] == sub[i - 1] && out[j] == sub[j - 1]);
            }
        }
        assert(has_identity(s, r) == has_identity(rest, r)) by {
            if has_identity(s, r) {
                let k = choose|k: int| 0 <= k < s.len() && same_identity(s[k], r);
                assert(k != 0);
                assert(rest[k - 1] == s[k]);
                assert(has_identity(rest, r));
            }
            if has_identity(rest, r) {
                let k = choose|k: int| 0 <= k < rest.len() && same_identity(rest[k], r);
                assert(s[k + 1] == rest[k]);
                assert(has_identity(s, r));
            }
        }
        assert forall|x: ReleaseView| #[trigger] out.contains(x) implies x == r || (s.contains(x)
            && !same_identity(x, r)) by {
            let k = choose|k: int| 0 <= k < out.len() && out[k] == x;
            if k == 0 {
                assert(x == s[0]);
                assert(s.contains(x));
            } else {
                assert(sub.contains(sub[k - 1]));
                if sub[k - 1] != r {
                    assert(rest.contains(x) && !same_identity(x, r));
                    let m = choose|m: int| 0 <= m < rest.len() && rest[m] == x;
                    assert(s[m + 1] == rest[m]);
                    assert(s.contains(x));
                }
            }
        }
        assert forall|x: ReleaseView| s.contains(x) && !same_identity(x, r) implies
            #[trigger] out.contains(x) by {
            let k = choose|k: int| 0 <= k < s.len() && s[k] == x;
            if k == 0 {
                assert(out[0] == x);
            } else {
                assert(rest[k - 1] == s[k]);
                assert(rest.contains(x));
                assert(sub.contains(x));
                let m = choose|m: int| 0 <= m < sub.len() && sub[m] == x;
                assert(out[m + 1] == sub[m]);
            }
        }
    }
}

/// Scanning past a prefix that neither collides with nor is older than `r`
/// leaves the merge to act on the remainder.
proof fn lemma_upsert_unfold(s: Seq<ReleaseView>, r: ReleaseView, i: int)
    requires
        0 <= i <= s.len(),
        forall|k: int| 0 <= k < i ==> !same_identity(#[trigger] s[k], r),
        forall|k: int| 0 <= k < i ==> !release_older(#[trigger] s[k], r),
    ensures
        spec_upsert(s, r) == s.take(i) + spec_upsert(s.skip(i), r),
    decreases i,
{
    if i == 0 {
        assert(s.skip(0) =~= s);
        assert(s.take(0) + spec_upsert(s, r) =~= spec_upsert(s, r));
    } else {
        assert(s.len() > 0);
        assert(!same_identity(s[0], r) && !release_older(s[0], r));
        assert(spec_upsert(s, r) == seq![s[0]] + spec_upsert(s.drop_first(), r));
        let rest = s.drop_first();
        assert(forall|k: int| 0 <= k < i - 1 ==> #[trigger] rest[k] == s[k + 1]);
        lemma_upsert_unfold(rest, r, i - 1);
        assert(rest.skip(i - 1) =~= s.skip(i));
        assert(seq![s[0]] + (rest.take(i - 1) + spec_upsert(rest.skip(i - 1), r)) =~= s.take(i)
            + spec_upsert(s.skip(i), r));
    }
}

/// Merge one record into a newest-first vector of releases, in place.
fn upsert_into(data: &mut Vec<Release>, r: Release)
    ensures
        releases_view(final(data)@) == spec_upsert(releases_view(old(data)@), r@),
{
    let ghost orig = releases_view(old(data)@);
    let mut i: usize = 0;
    while i < data.len()
        invariant
            i <= data@.len(),
            orig == releases_view(old(data)@),
            releases_view(data@) == orig,
            forall|k: int| 0 <= k < i ==> !same_identity(#[trigger] orig[k], r@),
            forall|k: int| 0 <= k < i ==> !release_older(#[trigger] orig[k], r@),
        decreases data@.len() - i,
    {
        proof {
            assert(orig[i as int] == data@[i as int]@);
        }
        if same_identity_exec(&data[i], &r) {
            proof {
                lemma_upsert_unfold(orig, r@, i as int);
                assert(orig.skip(i as int)[0] == orig[i as int]);
                assert(spec_upsert(orig.skip(i as int), r@) == seq![r@] + orig.skip(
                    i as int,
                ).drop_first());
            }
            data.set(i, r);
            proof {
                assert(orig.skip(i as int).drop_first() =~= orig.skip(i + 1));
                assert(releases_view(data@) =~= orig.take(i as int) + (seq![r@] + orig.skip(
                    i + 1,
                )));
            }
            return ;
        }
        if release_older_exec(&data[i], &r) {
            proof {
                lemma_upsert_unfold(orig, r@, i as int);
                assert(spec_upsert(orig.skip(i as int), r@) == seq![r@] + orig.skip(i as int));
            }
            data.insert(i, r);
            proof {
                assert(releases_view(data@) =~= orig.take(i as int) + (seq![r@] + orig.skip(
                    i as int,
                )));
            }
            return ;
        }
        i += 1;
    }
    proof {
        lemma_upsert_unfold(orig, r@, orig.len() as int);
        assert(orig.skip(orig.len() as int).len() == 0);
        assert(spec_upsert(orig.skip(orig.len() as int), r@) == seq![r@]);
    }
    data.push(r);
    proof {
        assert(orig.take(orig.len() as int) =~= orig);
        assert(releases_view(data@) =~= orig + seq![r@]);
        assert(orig + seq![r@] =~= orig.take(orig.len() as int) + spec_upsert(orig.skip(
            orig.len() as int,
        ), r@));
    }
}

/// Merging a whole batch record by record is the same as merging its last
/// record into the merge of the rest.
pub proof fn lemma_upsert_all_push(s: Seq<ReleaseView>, items: Seq<ReleaseView>, x: ReleaseView)
    ensures
        spec_upsert_all(s, items.push(x)) == spec_upsert(spec_upsert_all(s, items), x),
    decreases items.len(),
{
    if items.len() == 0 {
        assert(items.push(x)[0] == x);
        assert(items.push(x).drop_first() =~= Seq::<ReleaseView>::empty());
        assert(spec_upsert_all(s, items.push(x)) == spec_upsert_all(
            spec_upsert(s, x),
            Seq::<ReleaseView>::empty(),
        ));
        assert(spec_upsert_all(spec_upsert(s, x), Seq::<ReleaseView>::empty()) == spec_upsert(
            s,
            x,
        ));
        assert(spec_upsert_all(s, items) == s);
    } else {
        assert(items.push(x)[0] == items[0]);
        assert(items.push(x).drop_first() =~= items.drop_first().push(x));
        assert(spec_upsert_all(s, items.push(x)) == spec_upsert_all(
            spec_upsert(s, items[0]),
            items.drop_first().push(x),
        ));
        lemma_upsert_all_push(spec_upsert(s, items[0]), items.drop_first(), x);
        assert(spec_upsert_all(s, items) == spec_upsert_all(
            spec_upsert(s, items[0]),
            items.drop_first(),
        ));
    }
}

/// Merging any batch into a sorted list leaves it sorted.
pub proof fn lemma_upsert_all_sorted(s: Seq<ReleaseView>, items: Seq<ReleaseView>)
    requires
        sorted_newest_first(s),
    ensures
        sorted_newest_first(spec_upsert_all(s, items)),
    decreases items.len(),
{
    if items.len() > 0 {
        lemma_upsert_props(s, items[0]);
        lemma_upsert_all_sorted(spec_upsert(s, items[0]), items.drop_first());
    }
}

/// Trimming a sorted list keeps a prefix: at most `cap` entries, the
/// newest ones, and everything discarded is older than everything kept.
pub proof fn lemma_trim_props(s: Seq<ReleaseView>, cap: nat)
    requires
        sorted_newest_first(s),
    ensures
        spec_trim(s, cap).len() <= cap,
        spec_trim(s, cap).len() == if s.len() <= cap {
            s.len()
        } else {
            cap
        },
        sorted_newest_first(spec_trim(s, cap)),
        forall|i: int| 0 <= i < spec_trim(s, cap).len() ==> #[trigger] spec_trim(s, cap)[i] == s[i],
        forall|j: int, i: int|
            spec_trim(s, cap).len() <= j < s.len() && 0 <= i < spec_trim(s, cap).len()
                ==> release_older(#[trigger] s[j], #[trigger] spec_trim(s, cap)[i]),
{
}

/// Truncate a newest-first vector to its capacity.
fn trim_vec(data: &mut Vec<Release>, count: usize)
    ensures
        releases_view(final(data)@) == spec_trim(releases_view(old(data)@), count as nat),
{
    let ghost orig = releases_view(data@);
    if data.len() > count {
        data.truncate(count);
        proof {
            assert(releases_view(data@) =~= orig.take(count as int));
        }
    }
}

/// A persisted, size-bounded, set-like store of release records, kept
/// strictly sorted newest-first and holding at most one record per
/// identity.  `path` names the backing file; reading and writing it is the
/// surrounding program's concern.
#[derive(Debug)]
pub struct Cache {
    data: Vec<Release>,
    path: String,
    count: usize,
}

impl View for Cache {
    type V = Seq<ReleaseView>;

    closed spec fn view(&self) -> Seq<ReleaseView> {
        releases_view(self.data@)
    }
}

impl Cache {
    /// The configured bound on how many records a save may keep.
    pub closed spec fn capacity(&self) -> nat {
        self.count as nat
    }

    /// The backing file this store was bound to.
    pub closed spec fn spec_path(&self) -> Seq<char> {
        self.path@
    }

    /// The backing file this store was bound to.
    pub fn path(&self) -> (r: &String)
        ensures
            r@ == self.spec_path(),
    {
        &self.path
    }

    /// Well-formed: sorted newest-first (hence one record per identity)
    /// and within capacity.
    pub open spec fn inv(&self) -> bool {
        sorted_newest_first(self@) && self@.len() <= self.capacity()
    }

    /// An empty store bound to a backing file and a capacity.  Records
    /// read back from the file enter through `add_range`.
    pub fn new(path: String, count: usize) -> (r: Self)
        ensures
            r@ == Seq::<ReleaseView>::empty(),
            r.inv(),
            r.capacity() == count,
            r.spec_path() == path@,
    {
        let r = Cache { data: Vec::new(), path, count };
        proof {
            assert(r@ =~= Seq::<ReleaseView>::empty());
        }
        r
    }

    /// How many records the store holds.
    pub fn len(&self) -> (r: usize)
        ensures
            r == self@.len(),
    {
        self.data.len()
    }

    /// Merge one record, replacing any entry of the same identity, then
    /// enforce the capacity.
    pub fn add(&mut self, new_data: Release)
        requires
            old(self).inv(),
        ensures
            final(self)@ == spec_trim(spec_upsert(old(self)@, new_data@), old(self).capacity()),
            final(self).inv(),
            final(self).capacity() == old(self).capacity(),
            final(self).spec_path() == old(self).spec_path(),
    {
        proof {
            lemma_upsert_props(releases_view(self.data@), new_data@);
        }
        upsert_into(&mut self.data, new_data);
        proof {
            lemma_trim_props(releases_view(self.data@), self.count as nat);
        }
        trim_vec(&mut self.data, self.count);
    }

    /// Replace-or-insert one record: the same merge as `add`.
    pub fn update(&mut self, new_data: Release)
        requires
            old(self).inv(),
        ensures
            final(self)@ == spec_trim(spec_upsert(old(self)@, new_data@), old(self).capacity()),
            final(self).inv(),
            final(self).capacity() == old(self).capacity(),
            final(self).spec_path() == old(self).spec_path(),
    {
        self.add(new_data);
    }

    /// Merge a batch of records, first to last, then enforce the capacity.
    pub fn add_range(&mut self, new_data: Vec<Release>)
        requires
            old(self).inv(),
        ensures
            final(self)@ == spec_trim(
                spec_upsert_all(old(self)@, releases_view(new_data@)),
                old(self).capacity(),
            ),
            final(self).inv(),
            final(self).capacity() == old(self).capacity(),
            final(self).spec_path() == old(self).spec_path(),
    {
        let ghost orig = releases_view(self.data@);
        let ghost items = releases_view(new_data@);
        let mut i: usize = 0;
        while i < new_data.len()
            invariant
                i <= new_data@.len(),
                orig == old(self)@,
                items == releases_view(new_data@),
                self.count == old(self).count,
                self.spec_path() == old(self).spec_path(),
                sorted_newest_first(releases_view(self.data@)),
                releases_view(self.data@) == spec_upsert_all(orig, items.take(i as int)),
            decreases new_data@.len() - i,
        {
            let item = new_data[i].clone();
            proof {
                assert(items.take(i as int).push(items[i as int]) =~= items.take(i + 1));
                lemma_upsert_all_push(orig, items.take(i as int), items[i as int]);
                lemma_upsert_props(releases_view(self.data@), item@);
            }
            upsert_into(&mut self.data, item);
            i += 1;
        }
        proof {
            assert(items.take(items.len() as int) =~= items);
            lemma_trim_props(releases_view(self.data@), self.count as nat);
        }
        trim_vec(&mut self.data, self.count);
    }

    /// Merge a batch of records: the same merge as `add_range`.
    pub fn update_range(&mut self, new_data: Vec<Release>)
        requires
            old(self).inv(),
        ensures
            final(self)@ == spec_trim(
                spec_upsert_all(old(self)@, releases_view(new_data@)),
                old(self).capacity(),
            ),
            final(self).inv(),
            final(self).capacity() == old(self).capacity(),
            final(self).spec_path() == old(self).spec_path(),
    {
        self.add_range(new_data);
    }

    /// The records, newest first.
    pub fn get(&self) -> (r: Vec<Release>)
        ensures
            releases_view(r@) == self@,
    {
        let mut r: Vec<Release> = Vec::new();
        let mut i: usize = 0;
        while i < self.data.len()
            invariant
                i <= self.data@.len(),
                r@.len() == i,
                forall|k: int| 0 <= k < i ==> #[trigger] r@[k]@ == self.data@[k]@,
            decreases self.data@.len() - i,
        {
            let item = self.data[i].clone();
            r.push(item);
            i += 1;
        }
        proof {
            assert(releases_view(r@) =~= releases_view(self.data@));
        }
        r
    }
}

/// After every save the store holds at most `cap` entries, and those are
/// exactly the newest of what was merged: the kept entries are the leading
/// ones of the merge, and anything discarded is older than each of them.
pub proof fn lemma_save_bounded_and_newest(s: Seq<ReleaseView>, r: ReleaseView, cap: nat)
    requires
        sorted_newest_first(s),
    ensures
        spec_trim(spec_upsert(s, r), cap).len() <= cap,
        sorted_newest_first(spec_trim(spec_upsert(s, r), cap)),
        forall|i: int|
            0 <= i < spec_trim(spec_upsert(s, r), cap).len() ==> #[trigger] spec_trim(
                spec_upsert(s, r),
                cap,
            )[i] == spec_upsert(s, r)[i],
        forall|j: int, i: int|
            spec_trim(spec_upsert(s, r), cap).len() <= j < spec_upsert(s, r).len() && 0 <= i
                < spec_trim(spec_upsert(s, r), cap).len() ==> release_older(
                #[trigger] spec_upsert(s, r)[j],
                #[trigger] spec_trim(spec_upsert(s, r), cap)[i],
            ),
{
    lemma_upsert_props(s, r);
    lemma_trim_props(spec_upsert(s, r), cap);
}

/// A whole batch saved at once obeys the same bound: at most `cap`
/// entries remain, sorted, the leading entries of the merge, with
/// everything discarded older than each of them.
pub proof fn lemma_save_range_bounded_and_newest(
    s: Seq<ReleaseView>,
    items: Seq<ReleaseView>,
    cap: nat,
)
    requires
        sorted_newest_first(s),
    ensures
        spec_trim(spec_upsert_all(s, items), cap).len() <= cap,
        sorted_newest_first(spec_trim(spec_upsert_all(s, items), cap)),
        forall|i: int|
            0 <= i < spec_trim(spec_upsert_all(s, items), cap).len() ==> #[trigger] spec_trim(
                spec_upsert_all(s, items),
                cap,
            )[i] == spec_upsert_all(s, items)[i],
        forall|j: int, i: int|
            spec_trim(spec_upsert_all(s, items), cap).len() <= j < spec_upsert_all(s, items).len()
                && 0 <= i < spec_trim(spec_upsert_all(s, items), cap).len() ==> release_older(
                #[trigger] spec_upsert_all(s, items)[j],
                #[trigger] spec_trim(spec_upsert_all(s, items), cap)[i],
            ),
{
    lemma_upsert_all_sorted(s, items);
    lemma_trim_props(spec_upsert_all(s, items), cap);
}

/// Merging a record whose identity is already present replaces the prior
/// entry: the store does not grow.
pub proof fn lemma_upsert_collision(s: Seq<ReleaseView>, r: ReleaseView)
    requires
        sorted_newest_first(s),
        has_identity(s, r),
    ensures
        spec_upsert(s, r).len() == s.len(),
        spec_upsert(s, r).contains(r),
{
    lemma_upsert_props(s, r);
}

} // verus!
