use vstd::prelude::*;

use crate::engine_profile::EngineProfile;
use crate::keys::ArtifactKey;
use crate::metadata::{meta_matches_profile, ArtifactMetadata};
use crate::strutil::str_eq;

verus! {

/// Decision logic of the on-disk artifact store. The filesystem itself is
/// driven by the caller; this type says which paths to touch and what each
/// observation means.
#[derive(Debug)]
pub struct DiskCache {
    pub root: String,
    pub profile: EngineProfile,
    pub disk_max_bytes: Option<u64>,
}

/// The file names belonging to one artifact key.
#[derive(Debug)]
pub struct DiskPaths {
    pub artifacts_dir: String,
    pub tmp_dir: String,
    pub artifact_path: String,
    pub meta_path: String,
}

/// What a read of the sidecar file produced.
#[derive(Debug)]
pub enum SidecarState {
    Missing,
    Unreadable,
    Parsed(ArtifactMetadata),
}

/// What a cache read decides: serve the artifact, or miss, possibly deleting
/// stale files first.
#[derive(Debug, PartialEq, Eq, Structural)]
pub enum ReadDecision {
    Hit,
    Miss { delete_artifact: bool, delete_meta: bool },
}

/// `:` mapped to `_`, so a digest can serve as a file name.
pub open spec fn mangle_char(c: char) -> char {
    if c == ':' {
        '_'
    } else {
        c
    }
}

/// A digest spelled as a portable file name.
pub open spec fn mangled(digest: Seq<char>) -> Seq<char> {
    digest.map_values(|c: char| mangle_char(c))
}

/// Replaces `:` with `_` in a digest.
pub fn digest_to_filename(digest: &str) -> (r: String)
    ensures
        r@ == mangled(digest@),
{
    let n = digest.unicode_len();
    let mut out = String::new();
    let mut i: usize = 0;
    while i < n
        invariant
            n == digest@.len(),
            i <= n,
            out@ == digest@.take(i as int).map_values(|c: char| mangle_char(c)),
        decreases n - i,
    {
        let c = digest.get_char(i);
        out.push(if c == ':' {
            '_'
        } else {
            c
        });
        proof {
            assert(digest@.take(i + 1).map_values(|c: char| mangle_char(c)) =~= digest@.take(
                i as int,
            ).map_values(|c: char| mangle_char(c)).push(mangle_char(digest@[i as int])));
        }
        i += 1;
    }
    proof {
        assert(digest@.take(n as int) =~= digest@);
    }
    out
}

/// Whether the key belongs to this cache's profile.
pub open spec fn key_in_profile(cache: DiskCache, key: ArtifactKey) -> bool {
    key.engine_profile_id@ == cache.profile.engine_profile_id@
}

/// The artifact file path for a digest under a root.
pub open spec fn artifact_path_of(root: Seq<char>, digest: Seq<char>) -> Seq<char> {
    root + "/artifacts/"@ + mangled(digest) + ".cwasm"@
}

/// The sidecar file path for a digest under a root.
pub open spec fn meta_path_of(root: Seq<char>, digest: Seq<char>) -> Seq<char> {
    root + "/artifacts/"@ + mangled(digest) + ".json"@
}

/// Whether a read must serve the artifact: a parsed sidecar written under
/// this profile for this digest, and an artifact file of exactly the
/// recorded size.
pub open spec fn read_is_hit(
    cache: DiskCache,
    key: ArtifactKey,
    sidecar: SidecarState,
    artifact_len: Option<u64>,
) -> bool {
    &&& sidecar matches SidecarState::Parsed(m)
    &&& meta_matches_profile(sidecar->Parsed_0, cache.profile)
    &&& sidecar->Parsed_0.wasm_digest@ == key.wasm_digest@
    &&& artifact_len == Some(sidecar->Parsed_0.artifact_bytes)
}

impl DiskCache {
    pub fn new(root: String, profile: EngineProfile, disk_max_bytes: Option<u64>) -> (r: DiskCache)
        ensures
            r.root@ == root@,
            r.profile == profile,
            r.disk_max_bytes == disk_max_bytes,
    {
        DiskCache { root, profile, disk_max_bytes }
    }

    pub fn root(&self) -> (r: &str)
        ensures
            r@ == self.root@,
    {
        self.root.as_str()
    }

    /// The paths belonging to `key`; refused when the key carries another
    /// profile's id.
    pub fn paths_for(&self, key: &ArtifactKey) -> (r: Result<DiskPaths, String>)
        ensures
            r is Ok <==> key_in_profile(*self, *key),
            r matches Ok(p) ==> {
                &&& p.artifacts_dir@ == self.root@ + "/artifacts"@
                &&& p.tmp_dir@ == self.root@ + "/tmp"@
                &&& p.artifact_path@ == artifact_path_of(self.root@, key.wasm_digest@)
                &&& p.meta_path@ == meta_path_of(self.root@, key.wasm_digest@)
            },
            r matches Err(e) ==> e@ == "artifact key engine_profile_id mismatch"@,
    {
        if !str_eq(key.engine_profile_id.as_str(), self.profile.engine_profile_id.as_str()) {
            return Err("artifact key engine_profile_id mismatch".to_owned());
        }
        let mut artifacts_dir = self.root.clone();
        artifacts_dir.append("/artifacts");
        let mut tmp_dir = self.root.clone();
        tmp_dir.append("/tmp");
        let name = digest_to_filename(key.wasm_digest.as_str());
        let mut artifact_path = self.root.clone();
        artifact_path.append("/artifacts/");
        artifact_path.append(name.as_str());
        artifact_path.append(".cwasm");
        let mut meta_path = self.root.clone();
        meta_path.append("/artifacts/");
        meta_path.append(name.as_str());
        meta_path.append(".json");
        Ok(DiskPaths { artifacts_dir, tmp_dir, artifact_path, meta_path })
    }

    /// What a read observation means. Any inconsistency degrades to a miss
    /// that deletes the stale files: after the caller acts on the decision,
    /// no sidecar of a corrupt entry remains.
    pub fn evaluate_read(
        &self,
        key: &ArtifactKey,
        sidecar: &SidecarState,
        artifact_len: Option<u64>,
    ) -> (r: ReadDecision)
        ensures
            r == ReadDecision::Hit <==> read_is_hit(*self, *key, *sidecar, artifact_len),
            r matches ReadDecision::Miss { delete_artifact, delete_meta } ==> delete_meta == !(
            sidecar is Missing) && delete_artifact == !(sidecar is Missing
                && artifact_len is None),
    {
        match sidecar {
            SidecarState::Missing => ReadDecision::Miss {
                delete_artifact: !matches!(artifact_len, Option::None),
                delete_meta: false,
            },
            SidecarState::Unreadable => ReadDecision::Miss {
                delete_artifact: true,
                delete_meta: true,
            },
            SidecarState::Parsed(meta) => {
                if meta.validate_for_profile(&self.profile).is_err() {
                    return ReadDecision::Miss { delete_artifact: true, delete_meta: true };
                }
                if !str_eq(meta.wasm_digest.as_str(), key.wasm_digest.as_str()) {
                    return ReadDecision::Miss { delete_artifact: true, delete_meta: true };
                }
                match artifact_len {
                    Option::None => ReadDecision::Miss { delete_artifact: true, delete_meta: true },
                    Option::Some(len) => {
                        if len != meta.artifact_bytes {
                            ReadDecision::Miss { delete_artifact: true, delete_meta: true }
                        } else {
                            ReadDecision::Hit
                        }
                    },
                }
            },
        }
    }

    /// Pre-checks a write: the metadata must match this cache's profile and
    /// carry the key's digest; only then may the caller stage and rename.
    pub fn write_plan(&self, key: &ArtifactKey, meta: &ArtifactMetadata) -> (r: Result<
        DiskPaths,
        String,
    >)
        ensures
            r is Ok <==> (key_in_profile(*self, *key) && meta_matches_profile(*meta, self.profile)
                && meta.wasm_digest@ == key.wasm_digest@),
            r matches Ok(p) ==> {
                &&& p.artifacts_dir@ == self.root@ + "/artifacts"@
                &&& p.tmp_dir@ == self.root@ + "/tmp"@
                &&& p.artifact_path@ == artifact_path_of(self.root@, key.wasm_digest@)
                &&& p.meta_path@ == meta_path_of(self.root@, key.wasm_digest@)
            },
    {
        if meta.validate_for_profile(&self.profile).is_err() {
            return Err("cache metadata does not match engine profile".to_owned());
        }
        if !str_eq(meta.wasm_digest.as_str(), key.wasm_digest.as_str()) {
            return Err("cache metadata digest does not match artifact key".to_owned());
        }
        self.paths_for(key)
    }
}

/// One prunable entry: its artifact path, size, and effective access time.
#[derive(Debug)]
pub struct PruneEntry {
    pub artifact_path: String,
    pub meta_path: String,
    pub size: u64,
    pub access: Option<i64>,
}

/// What a prune removed.
#[derive(Debug, PartialEq, Eq, Structural)]
pub struct PruneReport {
    pub removed_entries: u64,
    pub removed_bytes: u64,
}

/// Sort key: the access time, with absent stamps first.
pub open spec fn access_key(e: PruneEntry) -> int {
    match e.access {
        Some(t) => t as int,
        None => i64::MIN as int - 1,
    }
}

/// Total size of a sequence of entries.
pub open spec fn total_size(s: Seq<PruneEntry>) -> int
    decreases s.len(),
{
    if s.len() == 0 {
        0
    } else {
        s[0].size + total_size(s.drop_first())
    }
}

/// Stable insertion into an access-ordered sequence.
pub open spec fn insert_by_access(e: PruneEntry, s: Seq<PruneEntry>) -> Seq<PruneEntry>
    decreases s.len(),
{
    if s.len() == 0 {
        seq![e]
    } else if access_key(s[0]) < access_key(e) {
        seq![s[0]] + insert_by_access(e, s.drop_first())
    } else {
        seq![e] + s
    }
}

/// Stable sort by ascending access time.
pub open spec fn sort_by_access(s: Seq<PruneEntry>) -> Seq<PruneEntry>
    decreases s.len(),
{
    if s.len() == 0 {
        s
    } else {
        insert_by_access(s[0], sort_by_access(s.drop_first()))
    }
}

/// How many of the oldest entries must go so the rest fits the limit.
pub open spec fn prune_k(s: Seq<PruneEntry>, limit: int) -> int
    decreases s.len(),
{
    if total_size(s) <= limit || s.len() == 0 {
        0
    } else {
        1 + prune_k(s.drop_first(), limit)
    }
}

proof fn lemma_total_size_snoc(s: Seq<PruneEntry>, e: PruneEntry)
    ensures
        total_size(s.push(e)) == total_size(s) + e.size,
    decreases s.len(),
{
    if s.len() == 0 {
        assert(s.push(e)[0] == e);
        assert(s.push(e).drop_first() =~= Seq::<PruneEntry>::empty());
        assert(total_size(s.push(e).drop_first()) == 0);
    } else {
        assert(s.push(e)[0] == s[0]);
        assert(s.push(e).drop_first() =~= s.drop_first().push(e));
        lemma_total_size_snoc(s.drop_first(), e);
    }
}

proof fn lemma_total_size_nonneg(s: Seq<PruneEntry>)
    ensures
        total_size(s) >= 0,
    decreases s.len(),
{
    if s.len() > 0 {
        lemma_total_size_nonneg(s.drop_first());
    }
}

proof fn lemma_insert_by_access_window(e: PruneEntry, s: Seq<PruneEntry>, p: int)
    requires
        0 <= p <= s.len(),
        forall|j: int| 0 <= j < p ==> access_key(#[trigger] s[j]) < access_key(e),
        p < s.len() ==> !(access_key(s[p]) < access_key(e)),
    ensures
        insert_by_access(e, s) == s.take(p) + seq![e] + s.skip(p),
    decreases p,
{
    if p == 0 {
        if s.len() == 0 {
            assert(s.take(0) + seq![e] + s.skip(0) =~= seq![e]);
        } else {
            assert(s.take(0) + seq![e] + s.skip(0) =~= seq![e] + s);
        }
    } else {
        assert(access_key(s[0]) < access_key(e));
        lemma_insert_by_access_window(e, s.drop_first(), p - 1);
        assert(s.take(p) + seq![e] + s.skip(p) =~= seq![s[0]] + (s.drop_first().take(p - 1)
            + seq![e] + s.drop_first().skip(p - 1)));
    }
}

/// Strict order on effective access times, absent stamps first.
fn access_lt(a: &PruneEntry, b: &PruneEntry) -> (r: bool)
    ensures
        r == (access_key(*a) < access_key(*b)),
{
    match (&a.access, &b.access) {
        (Option::None, Option::None) => false,
        (Option::None, Option::Some(_)) => true,
        (Option::Some(_), Option::None) => false,
        (Option::Some(x), Option::Some(y)) => *x < *y,
    }
}

/// Sorts entries by ascending access time, oldest first; order of equal
/// stamps is kept.
fn sort_entries(entries: Vec<PruneEntry>) -> (r: Vec<PruneEntry>)
    ensures
        r@ == sort_by_access(entries@),
{
    let ghost orig = entries@;
    let mut work = entries;
    let mut sorted: Vec<PruneEntry> = Vec::new();
    proof {
        assert(orig.skip(orig.len() as int) =~= Seq::<PruneEntry>::empty());
    }
    loop
        invariant
            orig == entries@,
            work@.len() <= orig.len(),
            work@ == orig.take(work@.len() as int),
            sorted@ == sort_by_access(orig.skip(work@.len() as int)),
        decreases work@.len(),
    {
        let e = match work.pop() {
            Some(e) => e,
            None => {
                proof {
                    assert(orig.skip(0) =~= orig);
                }
                return sorted;
            },
        };
        let ghost i = work@.len() as int;
        proof {
            assert(0 <= i < orig.len());
            assert(orig.take(i + 1)[i] == orig[i]);
            assert(e == orig[i]);
            assert(orig.skip(i)[0] == orig[i]);
            assert(orig.skip(i).drop_first() =~= orig.skip(i + 1));
            assert(work@ =~= orig.take(i));
        }
        let m = sorted.len();
        let mut p: usize = 0;
        while p < m && access_lt(&sorted[p], &e)
            invariant
                m == sorted.len(),
                p <= m,
                forall|j: int| 0 <= j < p ==> access_key(#[trigger] sorted@[j]) < access_key(e),
            decreases m - p,
        {
            p += 1;
        }
        proof {
            lemma_insert_by_access_window(e, sorted@, p as int);
        }
        let ghost old_sorted = sorted@;
        sorted.insert(p, e);
        proof {
            assert(sorted@ =~= old_sorted.take(p as int) + seq![e] + old_sorted.skip(p as int));
            assert(sorted@ == insert_by_access(e, sort_by_access(orig.skip(i + 1))));
        }
    }
}

/// Law: what survives a prune plan fits the limit.
pub proof fn lemma_prune_k_fits(s: Seq<PruneEntry>, limit: int)
    requires
        limit >= 0,
    ensures
        0 <= prune_k(s, limit) <= s.len(),
        total_size(s.skip(prune_k(s, limit))) <= limit,
    decreases s.len(),
{
    if total_size(s) <= limit || s.len() == 0 {
        assert(s.skip(0) =~= s);
        if s.len() == 0 {
            assert(total_size(s) == 0);
        }
    } else {
        lemma_prune_k_fits(s.drop_first(), limit);
        assert(s.drop_first().skip(prune_k(s.drop_first(), limit)) =~= s.skip(
            1 + prune_k(s.drop_first(), limit),
        ));
    }
}

impl DiskCache {
    /// Plans a prune: sorts the entries oldest-first and selects the
    /// shortest prefix whose removal brings the rest at or under the
    /// configured byte limit. With no limit set, nothing is selected.
    /// What is not selected always fits the limit.
    pub fn plan_prune(&self, entries: Vec<PruneEntry>) -> (r: (Vec<PruneEntry>, PruneReport))
        ensures
            self.disk_max_bytes is None ==> r.0@.len() == 0 && r.1 == (PruneReport {
                removed_entries: 0,
                removed_bytes: 0,
            }),
            self.disk_max_bytes matches Some(limit) ==> {
                let sorted = sort_by_access(entries@);
                let k = prune_k(sorted, limit as int);
                &&& r.0@ == sorted.take(k)
                &&& r.1.removed_entries as int == k
                &&& r.1.removed_bytes as int == if total_size(sorted.take(k)) <= u64::MAX as int {
                    total_size(sorted.take(k))
                } else {
                    u64::MAX as int
                }
                &&& total_size(sorted.skip(k)) <= limit as int
            },
    {
        let limit: u64 = match self.disk_max_bytes {
            Option::None => {
                return (Vec::new(), PruneReport { removed_entries: 0, removed_bytes: 0 });
            },
            Option::Some(l) => l,
        };
        let mut sorted = sort_entries(entries);
        let ghost s = sorted@;
        let n = sorted.len();
        // total size of everything, exact
        let mut total: u128 = 0;
        let mut i: usize = 0;
        proof {
            assert(s.take(0) =~= Seq::<PruneEntry>::empty());
            lemma_total_size_nonneg(s);
        }
        while i < n
            invariant
                n == s.len(),
                sorted@ == s,
                i <= n,
                total as int == total_size(s.take(i as int)),
                total <= u128::MAX - u64::MAX,
            decreases n - i,
        {
            proof {
                assert(s.take(i as int).push(s[i as int]) =~= s.take(i as int + 1));
                lemma_total_size_snoc(s.take(i as int), s[i as int]);
                lemma_total_take_bound(s, i as int + 1);
            }
            total = total + (sorted[i].size as u128);
            i += 1;
        }
        proof {
            assert(s.take(n as int) =~= s);
        }
        // walk the oldest entries until the remainder fits
        let mut k: usize = 0;
        let mut remaining: u128 = total;
        proof {
            assert(s.skip(0) =~= s);
            assert(prune_k(s, limit as int) == 0 + prune_k(s.skip(0), limit as int));
        }
        while remaining > (limit as u128) && k < n
            invariant
                n == s.len(),
                sorted@ == s,
                k <= n,
                remaining as int == total_size(s.skip(k as int)),
                prune_k(s, limit as int) == k as int + prune_k(s.skip(k as int), limit as int),
            decreases n - k,
        {
            proof {
                assert(s.skip(k as int)[0] == s[k as int]);
                assert(s.skip(k as int).drop_first() =~= s.skip(k as int + 1));
                lemma_total_size_nonneg(s.skip(k as int + 1));
            }
            remaining = remaining - (sorted[k].size as u128);
            k += 1;
        }
        proof {
            if k < n {
                assert(total_size(s.skip(k as int)) <= limit as int);
            } else {
                assert(s.skip(n as int) =~= Seq::<PruneEntry>::empty());
            }
            assert(prune_k(s.skip(k as int), limit as int) == 0);
            assert(prune_k(s, limit as int) == k as int);
        }
        // split off the selected prefix
        let mut removed: Vec<PruneEntry> = Vec::new();
        let mut removed_total: u128 = 0;
        let mut j: usize = 0;
        proof {
            assert(s.take(0) =~= Seq::<PruneEntry>::empty());
            assert(s.skip(0) =~= s);
        }
        while j < k
            invariant
                n == s.len(),
                sorted@ == s.skip(j as int),
                j <= k <= n,
                removed@ == s.take(j as int),
                removed_total as int == total_size(s.take(j as int)),
                removed_total <= u128::MAX - u64::MAX,
            decreases k - j,
        {
            proof {
                assert(s.skip(j as int)[0] == s[j as int]);
            }
            let e = sorted.remove(0);
            proof {
                assert(sorted@ =~= s.skip(j as int + 1));
                assert(s.take(j as int).push(s[j as int]) =~= s.take(j as int + 1));
                lemma_total_size_snoc(s.take(j as int), s[j as int]);
                lemma_total_take_bound(s, j as int + 1);
            }
            removed_total = removed_total + (e.size as u128);
            removed.push(e);
            j += 1;
        }
        let removed_bytes: u64 = if removed_total > (u64::MAX as u128) {
            u64::MAX
        } else {
            removed_total as u64
        };
        let report = PruneReport { removed_entries: k as u64, removed_bytes };
        (removed, report)
    }
}

proof fn lemma_total_take_bound(s: Seq<PruneEntry>, i: int)
    requires
        0 <= i <= s.len(),
    ensures
        total_size(s.take(i)) <= i * (u64::MAX as int),
    decreases i,
{
    if i == 0 {
        assert(s.take(0) =~= Seq::<PruneEntry>::empty());
    } else {
        lemma_total_take_bound(s, i - 1);
        assert(s.take(i - 1).push(s[i - 1]) =~= s.take(i));
        lemma_total_size_snoc(s.take(i - 1), s[i - 1]);
        assert((i - 1) * (u64::MAX as int) + u64::MAX as int == i * (u64::MAX as int))
            by (nonlinear_arith);
    }
}

} // verus!
