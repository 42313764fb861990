use vstd::prelude::*;

use std::sync::Arc;

use crate::keys::ArtifactKey;

verus! {

/// Relies on std's Arc::clone: the clone points at the same value.
#[verifier::external_body]
pub fn arc_clone<T>(v: &Arc<T>) -> (r: Arc<T>)
    ensures
        r == *v,
{
    Arc::clone(v)
}

/// Saturating addition on u64, as the counters use it.
pub open spec fn sat_add(a: u64, b: u64) -> u64 {
    if a + b > u64::MAX {
        u64::MAX
    } else {
        (a + b) as u64
    }
}

/// Saturating subtraction on u64.
pub open spec fn sat_sub(a: u64, b: u64) -> u64 {
    if a >= b {
        (a - b) as u64
    } else {
        0
    }
}

pub fn sat_add_exec(a: u64, b: u64) -> (r: u64)
    ensures
        r == sat_add(a, b),
{
    if a > u64::MAX - b {
        u64::MAX
    } else {
        a + b
    }
}

pub fn sat_sub_exec(a: u64, b: u64) -> (r: u64)
    ensures
        r == sat_sub(a, b),
{
    if a >= b {
        a - b
    } else {
        0
    }
}

/// One cached compiled component, with its accounting state.
pub struct MemEntry<T> {
    pub key: ArtifactKey,
    pub handle: Arc<T>,
    pub bytes_estimate: u64,
    pub hit_count: u64,
    pub pinned: bool,
}

/// Whether the eviction's protected pass must skip this entry.
pub open spec fn entry_protected<T>(e: MemEntry<T>, lfu_protect_hits: u64) -> bool {
    e.pinned || (lfu_protect_hits > 0 && e.hit_count >= lfu_protect_hits)
}

/// The key's two components.
pub open spec fn key_view(k: ArtifactKey) -> (Seq<char>, Seq<char>) {
    (k.engine_profile_id@, k.wasm_digest@)
}

/// First index holding the key, or -1.
pub open spec fn find_idx<T>(s: Seq<MemEntry<T>>, kv: (Seq<char>, Seq<char>)) -> int
    decreases s.len(),
{
    if s.len() == 0 {
        -1
    } else if key_view(s[0].key) == kv {
        0
    } else {
        let r = find_idx(s.drop_first(), kv);
        if r == -1 {
            -1
        } else {
            1 + r
        }
    }
}

/// The protected eviction pass: walk from the back, rotate pinned or
/// hit-protected candidates to the front, evict the rest, until the budget
/// fits or every candidate was seen once.
pub open spec fn pass1<T>(
    s: Seq<MemEntry<T>>,
    total: u64,
    attempts: nat,
    max: u64,
    thresh: u64,
) -> (Seq<MemEntry<T>>, u64, nat)
    decreases attempts,
{
    if attempts == 0 || total <= max || s.len() == 0 {
        (s, total, 0)
    } else {
        let e = s.last();
        if entry_protected(e, thresh) {
            pass1(seq![e] + s.drop_last(), total, (attempts - 1) as nat, max, thresh)
        } else {
            let r = pass1(
                s.drop_last(),
                sat_sub(total, e.bytes_estimate),
                (attempts - 1) as nat,
                max,
                thresh,
            );
            (r.0, r.1, r.2 + 1)
        }
    }
}

/// The pressure pass: walk from the back, skip only pinned entries.
pub open spec fn pass2<T>(s: Seq<MemEntry<T>>, total: u64, attempts: nat, max: u64) -> (
    Seq<MemEntry<T>>,
    u64,
    nat,
)
    decreases attempts,
{
    if attempts == 0 || total <= max || s.len() == 0 {
        (s, total, 0)
    } else {
        let e = s.last();
        if e.pinned {
            pass2(seq![e] + s.drop_last(), total, (attempts - 1) as nat, max)
        } else {
            let r = pass2(s.drop_last(), sat_sub(total, e.bytes_estimate), (attempts - 1) as nat,
                max);
            (r.0, r.1, r.2 + 1)
        }
    }
}

/// The whole eviction: the protected pass, then — only if it evicted
/// something and the budget still does not fit — the pressure pass.
/// A budget of zero disables eviction.
pub open spec fn evict_spec<T>(s: Seq<MemEntry<T>>, total: u64, max: u64, thresh: u64) -> (
    Seq<MemEntry<T>>,
    u64,
    nat,
)
{
    if max == 0 {
        (s, total, 0)
    } else {
        let r1 = pass1(s, total, s.len(), max, thresh);
        if r1.1 <= max || r1.2 == 0 {
            r1
        } else {
            let r2 = pass2(r1.0, r1.1, r1.0.len(), max);
            (r2.0, r2.1, r1.2 + r2.2)
        }
    }
}

/// Law: the protected pass keeps every pinned or hit-protected entry.
pub proof fn lemma_pass1_keeps_protected<T>(
    s: Seq<MemEntry<T>>,
    total: u64,
    attempts: nat,
    max: u64,
    thresh: u64,
)
    ensures
        forall|i: int|
            0 <= i < s.len() && entry_protected(#[trigger] s[i], thresh) ==> exists|j: int|
                0 <= j < pass1(s, total, attempts, max, thresh).0.len() && pass1(
                    s,
                    total,
                    attempts,
                    max,
                    thresh,
                ).0[j] == s[i],
    decreases attempts,
{
    let r = pass1(s, total, attempts, max, thresh);
    if attempts == 0 || total <= max || s.len() == 0 {
        assert forall|i: int| 0 <= i < s.len() && entry_protected(#[trigger] s[i], thresh)
            implies exists|j: int| 0 <= j < r.0.len() && r.0[j] == s[i] by {
            assert(r.0[i] == s[i]);
        }
    } else {
        let e = s.last();
        if entry_protected(e, thresh) {
            let s2 = seq![e] + s.drop_last();
            assert(r == pass1(s2, total, (attempts - 1) as nat, max, thresh));
            lemma_pass1_keeps_protected(s2, total, (attempts - 1) as nat, max, thresh);
            assert forall|i: int| 0 <= i < s.len() && entry_protected(#[trigger] s[i], thresh)
                implies exists|j: int| 0 <= j < r.0.len() && r.0[j] == s[i] by {
                let i2: int = if i == s.len() - 1 {
                    0
                } else {
                    i + 1
                };
                assert(s2[i2] == s[i]);
                assert(entry_protected(s2[i2], thresh));
                let j0 = choose|j: int| 0 <= j < r.0.len() && r.0[j] == s2[i2];
                assert(0 <= j0 < r.0.len() && r.0[j0] == s[i]);
            }
        } else {
            let s2 = s.drop_last();
            let r2 = pass1(s2, sat_sub(total, e.bytes_estimate), (attempts - 1) as nat, max,
                thresh);
            assert(r.0 == r2.0);
            lemma_pass1_keeps_protected(s2, sat_sub(total, e.bytes_estimate),
                (attempts - 1) as nat, max, thresh);
            assert forall|i: int| 0 <= i < s.len() && entry_protected(#[trigger] s[i], thresh)
                implies exists|j: int| 0 <= j < r.0.len() && r.0[j] == s[i] by {
                assert(i < s.len() - 1);
                assert(s2[i] == s[i]);
                assert(entry_protected(s2[i], thresh));
                let j0 = choose|j: int| 0 <= j < r2.0.len() && r2.0[j] == s2[i];
                assert(0 <= j0 < r.0.len() && r.0[j0] == s[i]);
            }
        }
    }
}

/// Law: the pressure pass keeps every pinned entry.
pub proof fn lemma_pass2_keeps_pinned<T>(s: Seq<MemEntry<T>>, total: u64, attempts: nat, max: u64)
    ensures
        forall|i: int|
            0 <= i < s.len() && s[i].pinned ==> exists|j: int|
                0 <= j < pass2(s, total, attempts, max).0.len() && pass2(
                    s,
                    total,
                    attempts,
                    max,
                ).0[j] == s[i],
    decreases attempts,
{
    let r = pass2(s, total, attempts, max);
    if attempts == 0 || total <= max || s.len() == 0 {
        assert forall|i: int| 0 <= i < s.len() && s[i].pinned implies exists|j: int|
            0 <= j < r.0.len() && r.0[j] == s[i] by {
            assert(r.0[i] == s[i]);
        }
    } else {
        let e = s.last();
        if e.pinned {
            let s2 = seq![e] + s.drop_last();
            assert(r == pass2(s2, total, (attempts - 1) as nat, max));
            lemma_pass2_keeps_pinned(s2, total, (attempts - 1) as nat, max);
            assert forall|i: int| 0 <= i < s.len() && s[i].pinned implies exists|j: int|
                0 <= j < r.0.len() && r.0[j] == s[i] by {
                let i2: int = if i == s.len() - 1 {
                    0
                } else {
                    i + 1
                };
                assert(s2[i2] == s[i]);
                assert(s2[i2].pinned);
                let j0 = choose|j: int| 0 <= j < r.0.len() && r.0[j] == s2[i2];
                assert(0 <= j0 < r.0.len() && r.0[j0] == s[i]);
            }
        } else {
            let s2 = s.drop_last();
            let r2 = pass2(s2, sat_sub(total, e.bytes_estimate), (attempts - 1) as nat, max);
            assert(r.0 == r2.0);
            lemma_pass2_keeps_pinned(s2, sat_sub(total, e.bytes_estimate), (attempts - 1) as nat,
                max);
            assert forall|i: int| 0 <= i < s.len() && s[i].pinned implies exists|j: int|
                0 <= j < r.0.len() && r.0[j] == s[i] by {
                assert(i < s.len() - 1);
                assert(s2[i] == s[i]);
                assert(s2[i].pinned);
                let j0 = choose|j: int| 0 <= j < r2.0.len() && r2.0[j] == s2[i];
                assert(0 <= j0 < r.0.len() && r.0[j0] == s[i]);
            }
        }
    }
}

/// Law: when the protected pass has examined every entry and the budget
/// still does not fit, everything left is pinned or hit-protected.
pub proof fn lemma_pass1_exhausted<T>(
    s: Seq<MemEntry<T>>,
    total: u64,
    attempts: nat,
    max: u64,
    thresh: u64,
)
    requires
        attempts <= s.len(),
        forall|i: int| 0 <= i < s.len() - attempts ==> entry_protected(#[trigger] s[i], thresh),
    ensures
        pass1(s, total, attempts, max, thresh).1 > max ==> forall|i: int|
            0 <= i < pass1(s, total, attempts, max, thresh).0.len() ==> entry_protected(
                #[trigger] pass1(s, total, attempts, max, thresh).0[i],
                thresh,
            ),
    decreases attempts,
{
    let r = pass1(s, total, attempts, max, thresh);
    if attempts == 0 || total <= max || s.len() == 0 {
        assert forall|i: int| 0 <= i < s.len() && entry_protected(#[trigger] s[i], thresh)
            implies exists|j: int| 0 <= j < r.0.len() && r.0[j] == s[i] by {
            assert(r.0[i] == s[i]);
        }
    } else {
        let e = s.last();
        if entry_protected(e, thresh) {
            let s2 = seq![e] + s.drop_last();
            assert(r == pass1(s2, total, (attempts - 1) as nat, max, thresh));
            assert forall|i: int| 0 <= i < s2.len() - (attempts - 1) implies entry_protected(
                #[trigger] s2[i],
                thresh,
            ) by {
                if i == 0 {
                } else {
                    assert(s2[i] == s[i - 1]);
                }
            }
            lemma_pass1_exhausted(s2, total, (attempts - 1) as nat, max, thresh);
        } else {
            let s2 = s.drop_last();
            let r2 = pass1(s2, sat_sub(total, e.bytes_estimate), (attempts - 1) as nat, max,
                thresh);
            assert(r.0 == r2.0 && r.1 == r2.1);
            assert forall|i: int| 0 <= i < s2.len() - (attempts - 1) implies entry_protected(
                #[trigger] s2[i],
                thresh,
            ) by {
                assert(s2[i] == s[i]);
            }
            lemma_pass1_exhausted(s2, sat_sub(total, e.bytes_estimate), (attempts - 1) as nat,
                max, thresh);
        }
    }
}

/// Law: when the pressure pass has examined every entry and the budget
/// still does not fit, everything left is pinned.
pub proof fn lemma_pass2_exhausted<T>(s: Seq<MemEntry<T>>, total: u64, attempts: nat, max: u64)
    requires
        attempts <= s.len(),
        forall|i: int| 0 <= i < s.len() - attempts ==> #[trigger] s[i].pinned,
    ensures
        pass2(s, total, attempts, max).1 > max ==> forall|i: int|
            0 <= i < pass2(s, total, attempts, max).0.len() ==> #[trigger] pass2(
                s,
                total,
                attempts,
                max,
            ).0[i].pinned,
    decreases attempts,
{
    let r = pass2(s, total, attempts, max);
    if attempts == 0 || total <= max || s.len() == 0 {
        assert forall|i: int| 0 <= i < s.len() && s[i].pinned implies exists|j: int|
            0 <= j < r.0.len() && r.0[j] == s[i] by {
            assert(r.0[i] == s[i]);
        }
    } else {
        let e = s.last();
        if e.pinned {
            let s2 = seq![e] + s.drop_last();
            assert(r == pass2(s2, total, (attempts - 1) as nat, max));
            assert forall|i: int| 0 <= i < s2.len() - (attempts - 1) implies #[trigger] s2[i].pinned by {
                if i == 0 {
                } else {
                    assert(s2[i] == s[i - 1]);
                }
            }
            lemma_pass2_exhausted(s2, total, (attempts - 1) as nat, max);
        } else {
            let s2 = s.drop_last();
            let r2 = pass2(s2, sat_sub(total, e.bytes_estimate), (attempts - 1) as nat, max);
            assert(r.0 == r2.0 && r.1 == r2.1);
            assert forall|i: int| 0 <= i < s2.len() - (attempts - 1) implies #[trigger] s2[i].pinned by {
                assert(s2[i] == s[i]);
            }
            lemma_pass2_exhausted(s2, sat_sub(total, e.bytes_estimate), (attempts - 1) as nat,
                max);
        }
    }
}

/// Saturating addition of a mathematical count to a u64.
pub open spec fn sat_add_n(a: u64, n: int) -> u64 {
    if a + n > u64::MAX {
        u64::MAX
    } else {
        (a + n) as u64
    }
}

proof fn lemma_find_idx_window<T>(s: Seq<MemEntry<T>>, kv: (Seq<char>, Seq<char>), i: int)
    requires
        0 <= i <= s.len(),
        forall|j: int| 0 <= j < i ==> key_view(#[trigger] s[j].key) != kv,
        i < s.len() ==> key_view(s[i].key) == kv,
    ensures
        find_idx(s, kv) == if i < s.len() {
            i
        } else {
            -1
        },
    decreases i,
{
    if i == 0 {
    } else {
        assert(key_view(s[0].key) != kv);
        lemma_find_idx_window(s.drop_first(), kv, i - 1);
        assert(forall|j: int| 1 <= j < s.len() ==> s.drop_first()[j - 1] == #[trigger] s[j]);
    }
}

/// Counter snapshot of the in-memory cache.
#[derive(Clone, Copy, Debug, PartialEq, Eq, Structural)]
pub struct MemoryStats {
    pub hits: u64,
    pub misses: u64,
    pub evictions: u64,
    pub entries: u64,
    pub total_bytes: u64,
}

/// Bounded in-process cache of compiled components: most-recently-used
/// entries stand at the front; eviction walks from the back in two passes.
pub struct MemoryCache<T> {
    pub max_bytes: u64,
    pub lfu_protect_hits: u64,
    pub entries: Vec<MemEntry<T>>,
    pub total_bytes: u64,
    pub hits: u64,
    pub misses: u64,
    pub evictions: u64,
}

impl<T> MemoryCache<T> {
    pub fn new(max_bytes: u64, lfu_protect_hits: u64) -> (r: MemoryCache<T>)
        ensures
            r.max_bytes == max_bytes,
            r.lfu_protect_hits == lfu_protect_hits,
            r.entries@.len() == 0,
            r.total_bytes == 0,
            r.hits == 0,
            r.misses == 0,
            r.evictions == 0,
    {
        MemoryCache {
            max_bytes,
            lfu_protect_hits,
            entries: Vec::new(),
            total_bytes: 0,
            hits: 0,
            misses: 0,
            evictions: 0,
        }
    }

    /// On a hit, bumps the hit counters, moves the entry to the front and
    /// returns a shared handle; on a miss, counts the miss.
    pub fn get(&mut self, key: &ArtifactKey) -> (r: Option<Arc<T>>)
        ensures
            final(self).max_bytes == old(self).max_bytes,
            final(self).lfu_protect_hits == old(self).lfu_protect_hits,
            final(self).total_bytes == old(self).total_bytes,
            final(self).evictions == old(self).evictions,
            ({
                let s = old(self).entries@;
                let i = find_idx(s, key_view(*key));
                if i >= 0 {
                    &&& r == Some(s[i].handle)
                    &&& final(self).hits == sat_add(old(self).hits, 1)
                    &&& final(self).misses == old(self).misses
                    &&& final(self).entries@ == seq![
                        (MemEntry {
                            hit_count: sat_add(s[i].hit_count, 1),
                            ..s[i]
                        }),
                    ] + s.take(i) + s.skip(i + 1)
                } else {
                    &&& r is None
                    &&& final(self).hits == old(self).hits
                    &&& final(self).misses == sat_add(old(self).misses, 1)
                    &&& final(self).entries@ == s
                }
            }),
    {
        let ghost s = self.entries@;
        let ghost kv = key_view(*key);
        let n = self.entries.len();
        let mut i: usize = 0;
        while i < n
            invariant
                *self == *old(self),
                s == self.entries@,
                kv == key_view(*key),
                n == s.len(),
                i <= n,
                forall|j: int| 0 <= j < i ==> key_view(#[trigger] s[j].key) != kv,
            decreases n - i,
        {
            if self.entries[i].key.same_key(key) {
                proof {
                    lemma_find_idx_window(s, kv, i as int);
                }
                let mut e = self.entries.remove(i);
                e.hit_count = sat_add_exec(e.hit_count, 1);
                let handle = arc_clone(&e.handle);
                self.entries.insert(0, e);
                self.hits = sat_add_exec(self.hits, 1);
                proof {
                    assert(self.entries@ =~= seq![
                        (MemEntry { hit_count: sat_add(s[i as int].hit_count, 1), ..s[i as int] }),
                    ] + s.take(i as int) + s.skip(i as int + 1));
                }
                return Some(handle);
            }
            i += 1;
        }
        proof {
            lemma_find_idx_window(s, kv, n as int);
        }
        self.misses = sat_add_exec(self.misses, 1);
        None
    }

    /// Replaces any entry for the key, adds the new entry at the front, then
    /// runs the two-pass eviction. Every pinned entry survives; a pinned or
    /// hit-protected entry survives whenever the protected pass alone ran.
    pub fn insert(&mut self, key: ArtifactKey, value: Arc<T>, bytes_estimate: usize, pinned: bool)
        ensures
            final(self).max_bytes == old(self).max_bytes,
            final(self).lfu_protect_hits == old(self).lfu_protect_hits,
            final(self).hits == old(self).hits,
            final(self).misses == old(self).misses,
            ({
                let s = old(self).entries@;
                let i = find_idx(s, key_view(key));
                let s1 = if i >= 0 {
                    s.take(i) + s.skip(i + 1)
                } else {
                    s
                };
                let t1 = if i >= 0 {
                    sat_sub(old(self).total_bytes, s[i].bytes_estimate)
                } else {
                    old(self).total_bytes
                };
                let s2 = seq![
                    (MemEntry {
                        key: key,
                        handle: value,
                        bytes_estimate: bytes_estimate as u64,
                        hit_count: 0,
                        pinned: pinned,
                    }),
                ] + s1;
                let t2 = sat_add(t1, bytes_estimate as u64);
                let ev = evict_spec(s2, t2, old(self).max_bytes, old(self).lfu_protect_hits);
                &&& final(self).entries@ == ev.0
                &&& final(self).total_bytes == ev.1
                &&& final(self).evictions == sat_add_n(old(self).evictions, ev.2 as int)
            }),
    {
        let ghost s = self.entries@;
        let ghost kv = key_view(key);
        let n = self.entries.len();
        let mut i: usize = 0;
        let mut found = false;
        while i < n && !found
            invariant
                *self == *old(self),
                s == self.entries@,
                kv == key_view(key),
                n == s.len(),
                i <= n,
                forall|j: int| 0 <= j < i ==> key_view(#[trigger] s[j].key) != kv,
                found ==> i < n && key_view(s[i as int].key) == kv,
            decreases n - i, if found { 0int } else { 1int },
        {
            if self.entries[i].key.same_key(&key) {
                found = true;
            } else {
                i += 1;
            }
        }
        proof {
            if found {
                lemma_find_idx_window(s, kv, i as int);
            } else {
                lemma_find_idx_window(s, kv, n as int);
            }
        }
        if found {
            let e = self.entries.remove(i);
            self.total_bytes = sat_sub_exec(self.total_bytes, e.bytes_estimate);
            proof {
                assert(self.entries@ =~= s.take(i as int) + s.skip(i as int + 1));
            }
        }
        let entry = MemEntry {
            key,
            handle: value,
            bytes_estimate: bytes_estimate as u64,
            hit_count: 0,
            pinned,
        };
        let ghost ge = entry;
        self.entries.insert(0, entry);
        self.total_bytes = sat_add_exec(self.total_bytes, bytes_estimate as u64);
        proof {
            assert(self.entries@ =~= seq![ge] + (if find_idx(s, kv) >= 0 {
                s.take(find_idx(s, kv)) + s.skip(find_idx(s, kv) + 1)
            } else {
                s
            }));
        }
        self.evict_if_needed();
    }

    /// The two-pass eviction on the current state.
    fn evict_if_needed(&mut self)
        ensures
            final(self).max_bytes == old(self).max_bytes,
            final(self).lfu_protect_hits == old(self).lfu_protect_hits,
            final(self).hits == old(self).hits,
            final(self).misses == old(self).misses,
            ({
                let ev = evict_spec(
                    old(self).entries@,
                    old(self).total_bytes,
                    old(self).max_bytes,
                    old(self).lfu_protect_hits,
                );
                &&& final(self).entries@ == ev.0
                &&& final(self).total_bytes == ev.1
                &&& final(self).evictions == sat_add_n(old(self).evictions, ev.2 as int)
            }),
    {
        let max = self.max_bytes;
        let thresh = self.lfu_protect_hits;
        if max == 0 {
            return ;
        }
        let ghost s0 = self.entries@;
        let ghost t0 = self.total_bytes;
        let ghost ev0 = self.evictions;
        let ghost goal1 = pass1(s0, t0, s0.len(), max, thresh);
        let mut attempts: usize = self.entries.len();
        let ghost mut gcount: int = 0;
        let mut evicted_any = false;
        while self.total_bytes > max && attempts > 0 && self.entries.len() > 0
            invariant
                self.max_bytes == max,
                self.lfu_protect_hits == thresh,
                max > 0,
                self.hits == old(self).hits,
                self.misses == old(self).misses,
                goal1 == pass1(s0, t0, s0.len(), max, thresh),
                pass1(self.entries@, self.total_bytes, attempts as nat, max, thresh) == (
                    goal1.0,
                    goal1.1,
                    (goal1.2 - gcount) as nat,
                ),
                0 <= gcount <= goal1.2,
                evicted_any == (gcount > 0),
                self.evictions == sat_add_n(ev0, gcount),
            decreases attempts,
        {
            attempts -= 1;
            let n = self.entries.len();
            let ghost cur = self.entries@;
            let ghost curt = self.total_bytes;
            let e = self.entries.remove(n - 1);
            proof {
                assert(self.entries@ =~= cur.drop_last());
                assert(e == cur.last());
            }
            let keep = e.pinned || (thresh > 0 && e.hit_count >= thresh);
            if keep {
                self.entries.insert(0, e);
                proof {
                    assert(self.entries@ =~= seq![cur.last()] + cur.drop_last());
                    assert(pass1(cur, curt, (attempts + 1) as nat, max, thresh) == pass1(
                        self.entries@,
                        curt,
                        attempts as nat,
                        max,
                        thresh,
                    ));
                }
            } else {
                self.total_bytes = sat_sub_exec(self.total_bytes, e.bytes_estimate);
                self.evictions = sat_add_exec(self.evictions, 1);
                evicted_any = true;
                proof {
                    let r = pass1(self.entries@, self.total_bytes, attempts as nat, max, thresh);
                    assert(pass1(cur, curt, (attempts + 1) as nat, max, thresh) == (
                        r.0,
                        r.1,
                        r.2 + 1,
                    ));
                    gcount = gcount + 1;
                }
            }
        }
        proof {
            assert(pass1(self.entries@, self.total_bytes, attempts as nat, max, thresh) == (
                self.entries@,
                self.total_bytes,
                0nat,
            ));
            assert(self.entries@ == goal1.0 && self.total_bytes == goal1.1);
            assert(gcount == goal1.2);
        }
        if self.total_bytes <= max || !evicted_any {
            return ;
        }
        let ghost s1 = self.entries@;
        let ghost t1 = self.total_bytes;
        let ghost goal2 = pass2(s1, t1, s1.len(), max);
        let mut attempts: usize = self.entries.len();
        let ghost mut gcount2: int = 0;
        while self.total_bytes > max && attempts > 0 && self.entries.len() > 0
            invariant
                self.max_bytes == max,
                self.lfu_protect_hits == thresh,
                max > 0,
                self.hits == old(self).hits,
                self.misses == old(self).misses,
                goal2 == pass2(s1, t1, s1.len(), max),
                pass2(self.entries@, self.total_bytes, attempts as nat, max) == (
                    goal2.0,
                    goal2.1,
                    (goal2.2 - gcount2) as nat,
                ),
                0 <= gcount2 <= goal2.2,
                self.evictions == sat_add_n(ev0, gcount + gcount2),
                gcount == goal1.2,
            decreases attempts,
        {
            attempts -= 1;
            let n = self.entries.len();
            let ghost cur = self.entries@;
            let ghost curt = self.total_bytes;
            let e = self.entries.remove(n - 1);
            proof {
                assert(self.entries@ =~= cur.drop_last());
                assert(e == cur.last());
            }
            if e.pinned {
                self.entries.insert(0, e);
                proof {
                    assert(self.entries@ =~= seq![cur.last()] + cur.drop_last());
                    assert(pass2(cur, curt, (attempts + 1) as nat, max) == pass2(
                        self.entries@,
                        curt,
                        attempts as nat,
                        max,
                    ));
                }
            } else {
                self.total_bytes = sat_sub_exec(self.total_bytes, e.bytes_estimate);
                self.evictions = sat_add_exec(self.evictions, 1);
                proof {
                    let r = pass2(self.entries@, self.total_bytes, attempts as nat, max);
                    assert(pass2(cur, curt, (attempts + 1) as nat, max) == (r.0, r.1, r.2 + 1));
                    gcount2 = gcount2 + 1;
                }
            }
        }
        proof {
            assert(pass2(self.entries@, self.total_bytes, attempts as nat, max) == (
                self.entries@,
                self.total_bytes,
                0nat,
            ));
            assert(self.entries@ == goal2.0 && self.total_bytes == goal2.1);
            assert(gcount2 == goal2.2);
        }
    }

    /// Counter snapshot.
    pub fn stats(&self) -> (r: MemoryStats)
        ensures
            r.hits == self.hits,
            r.misses == self.misses,
            r.evictions == self.evictions,
            r.entries as int == self.entries@.len(),
            r.total_bytes == self.total_bytes,
    {
        MemoryStats {
            hits: self.hits,
            misses: self.misses,
            evictions: self.evictions,
            entries: self.entries.len() as u64,
            total_bytes: self.total_bytes,
        }
    }
}

/// Law: after a full eviction with a nonzero budget, either the total fits
/// the budget, or every remaining entry is pinned, or nothing could be
/// evicted at all and every remaining entry is pinned or hit-protected.
pub proof fn lemma_evict_bounded<T>(s: Seq<MemEntry<T>>, total: u64, max: u64, thresh: u64)
    requires
        max > 0,
    ensures
        ({
            let r = evict_spec(s, total, max, thresh);
            ||| r.1 <= max
            ||| (forall|i: int| 0 <= i < r.0.len() ==> #[trigger] r.0[i].pinned)
            ||| (r.2 == 0 && forall|i: int|
                0 <= i < r.0.len() ==> entry_protected(#[trigger] r.0[i], thresh))
        }),
{
    let r1 = pass1(s, total, s.len(), max, thresh);
    lemma_pass1_exhausted(s, total, s.len(), max, thresh);
    if r1.1 <= max || r1.2 == 0 {
    } else {
        lemma_pass2_exhausted(r1.0, r1.1, r1.0.len(), max);
    }
}

/// Total byte estimate of a sequence of entries.
pub open spec fn entries_bytes<T>(s: Seq<MemEntry<T>>) -> int
    decreases s.len(),
{
    if s.len() == 0 {
        0
    } else {
        s[0].bytes_estimate + entries_bytes(s.drop_first())
    }
}

proof fn lemma_entries_bytes_nonneg<T>(s: Seq<MemEntry<T>>)
    ensures
        entries_bytes(s) >= 0,
    decreases s.len(),
{
    if s.len() > 0 {
        lemma_entries_bytes_nonneg(s.drop_first());
    }
}

proof fn lemma_entries_bytes_concat<T>(a: Seq<MemEntry<T>>, b: Seq<MemEntry<T>>)
    ensures
        entries_bytes(a + b) == entries_bytes(a) + entries_bytes(b),
    decreases a.len(),
{
    if a.len() == 0 {
        assert(a + b =~= b);
    } else {
        assert((a + b)[0] == a[0]);
        assert((a + b).drop_first() =~= a.drop_first() + b);
        lemma_entries_bytes_concat(a.drop_first(), b);
    }
}

proof fn lemma_entries_bytes_last<T>(s: Seq<MemEntry<T>>)
    requires
        s.len() > 0,
    ensures
        entries_bytes(s) == entries_bytes(s.drop_last()) + s.last().bytes_estimate,
{
    assert(s =~= s.drop_last() + seq![s.last()]);
    lemma_entries_bytes_concat(s.drop_last(), seq![s.last()]);
    assert(entries_bytes(seq![s.last()]) == s.last().bytes_estimate + entries_bytes(
        seq![s.last()].drop_first(),
    ));
    assert(seq![s.last()].drop_first() =~= Seq::<MemEntry<T>>::empty());
}

proof fn lemma_pass1_accounting<T>(
    s: Seq<MemEntry<T>>,
    total: u64,
    attempts: nat,
    max: u64,
    thresh: u64,
)
    requires
        total as int == entries_bytes(s),
    ensures
        pass1(s, total, attempts, max, thresh).1 as int == entries_bytes(
            pass1(s, total, attempts, max, thresh).0,
        ),
    decreases attempts,
{
    if attempts == 0 || total <= max || s.len() == 0 {
    } else {
        let e = s.last();
        lemma_entries_bytes_last(s);
        lemma_entries_bytes_nonneg(s.drop_last());
        if entry_protected(e, thresh) {
            let s2 = seq![e] + s.drop_last();
            lemma_entries_bytes_concat(seq![e], s.drop_last());
            assert(entries_bytes(seq![e]) == e.bytes_estimate + entries_bytes(
                seq![e].drop_first(),
            ));
            assert(seq![e].drop_first() =~= Seq::<MemEntry<T>>::empty());
            lemma_pass1_accounting(s2, total, (attempts - 1) as nat, max, thresh);
        } else {
            assert(sat_sub(total, e.bytes_estimate) as int == entries_bytes(s.drop_last()));
            lemma_pass1_accounting(
                s.drop_last(),
                sat_sub(total, e.bytes_estimate),
                (attempts - 1) as nat,
                max,
                thresh,
            );
        }
    }
}

proof fn lemma_pass2_accounting<T>(s: Seq<MemEntry<T>>, total: u64, attempts: nat, max: u64)
    requires
        total as int == entries_bytes(s),
    ensures
        pass2(s, total, attempts, max).1 as int == entries_bytes(pass2(s, total, attempts, max).0),
    decreases attempts,
{
    if attempts == 0 || total <= max || s.len() == 0 {
    } else {
        let e = s.last();
        lemma_entries_bytes_last(s);
        lemma_entries_bytes_nonneg(s.drop_last());
        if e.pinned {
            let s2 = seq![e] + s.drop_last();
            lemma_entries_bytes_concat(seq![e], s.drop_last());
            assert(entries_bytes(seq![e]) == e.bytes_estimate + entries_bytes(
                seq![e].drop_first(),
            ));
            assert(seq![e].drop_first() =~= Seq::<MemEntry<T>>::empty());
            lemma_pass2_accounting(s2, total, (attempts - 1) as nat, max);
        } else {
            assert(sat_sub(total, e.bytes_estimate) as int == entries_bytes(s.drop_last()));
            lemma_pass2_accounting(
                s.drop_last(),
                sat_sub(total, e.bytes_estimate),
                (attempts - 1) as nat,
                max,
            );
        }
    }
}

/// Law: eviction keeps the total equal to the summed estimates.
pub proof fn lemma_evict_accounting<T>(s: Seq<MemEntry<T>>, total: u64, max: u64, thresh: u64)
    requires
        total as int == entries_bytes(s),
    ensures
        evict_spec(s, total, max, thresh).1 as int == entries_bytes(
            evict_spec(s, total, max, thresh).0,
        ),
{
    if max == 0 {
    } else {
        lemma_pass1_accounting(s, total, s.len(), max, thresh);
        let r1 = pass1(s, total, s.len(), max, thresh);
        if r1.1 <= max || r1.2 == 0 {
        } else {
            lemma_pass2_accounting(r1.0, r1.1, r1.0.len(), max);
        }
    }
}

/// Law: a lookup's move-to-front keeps the summed estimates unchanged, so
/// the total — which `get` leaves as it was — still equals them.
pub proof fn lemma_get_accounting<T>(s: Seq<MemEntry<T>>, i: int)
    requires
        0 <= i < s.len(),
    ensures
        entries_bytes(
            seq![(MemEntry { hit_count: sat_add(s[i].hit_count, 1), ..s[i] })] + s.take(i) + s.skip(
                i + 1,
            ),
        ) == entries_bytes(s),
{
    let e2 = MemEntry { hit_count: sat_add(s[i].hit_count, 1), ..s[i] };
    lemma_entries_bytes_concat(seq![e2] + s.take(i), s.skip(i + 1));
    lemma_entries_bytes_concat(seq![e2], s.take(i));
    assert(entries_bytes(seq![e2]) == e2.bytes_estimate + entries_bytes(seq![e2].drop_first()));
    assert(seq![e2].drop_first() =~= Seq::<MemEntry<T>>::empty());
    assert(s =~= s.take(i) + (seq![s[i]] + s.skip(i + 1)));
    lemma_entries_bytes_concat(s.take(i), seq![s[i]] + s.skip(i + 1));
    lemma_entries_bytes_concat(seq![s[i]], s.skip(i + 1));
    assert(entries_bytes(seq![s[i]]) == s[i].bytes_estimate + entries_bytes(
        seq![s[i]].drop_first(),
    ));
    assert(seq![s[i]].drop_first() =~= Seq::<MemEntry<T>>::empty());
}

/// Law: the accounting invariant of the cache — `total_bytes` equals the
/// summed estimates — is kept by an insert whenever the sum after the
/// replacement and addition still fits in u64; the eviction below the
/// budget then keeps it exactly.
pub proof fn lemma_insert_accounting<T>(
    s: Seq<MemEntry<T>>,
    total: u64,
    kv: (Seq<char>, Seq<char>),
    e: MemEntry<T>,
    max: u64,
    thresh: u64,
)
    requires
        total as int == entries_bytes(s),
        ({
            let i = find_idx(s, kv);
            let s1 = if i >= 0 {
                s.take(i) + s.skip(i + 1)
            } else {
                s
            };
            -1 <= i < s.len() && entries_bytes(s1) + e.bytes_estimate <= u64::MAX
        }),
    ensures
        ({
            let i = find_idx(s, kv);
            let s1 = if i >= 0 {
                s.take(i) + s.skip(i + 1)
            } else {
                s
            };
            let t1 = if i >= 0 {
                sat_sub(total, s[i].bytes_estimate)
            } else {
                total
            };
            let s2 = seq![e] + s1;
            let t2 = sat_add(t1, e.bytes_estimate);
            let ev = evict_spec(s2, t2, max, thresh);
            &&& t1 as int == entries_bytes(s1)
            &&& t2 as int == entries_bytes(s2)
            &&& ev.1 as int == entries_bytes(ev.0)
        }),
{
    let i = find_idx(s, kv);
    let s1 = if i >= 0 {
        s.take(i) + s.skip(i + 1)
    } else {
        s
    };
    if i >= 0 {
        assert(s =~= s.take(i) + (seq![s[i]] + s.skip(i + 1)));
        lemma_entries_bytes_concat(s.take(i), seq![s[i]] + s.skip(i + 1));
        lemma_entries_bytes_concat(seq![s[i]], s.skip(i + 1));
        assert(entries_bytes(seq![s[i]]) == s[i].bytes_estimate + entries_bytes(
            seq![s[i]].drop_first(),
        ));
        assert(seq![s[i]].drop_first() =~= Seq::<MemEntry<T>>::empty());
        lemma_entries_bytes_concat(s.take(i), s.skip(i + 1));
        lemma_entries_bytes_nonneg(s.take(i));
        lemma_entries_bytes_nonneg(s.skip(i + 1));
    }
    let t1 = if i >= 0 {
        sat_sub(total, s[i].bytes_estimate)
    } else {
        total
    };
    let s2 = seq![e] + s1;
    lemma_entries_bytes_concat(seq![e], s1);
    assert(entries_bytes(seq![e]) == e.bytes_estimate + entries_bytes(seq![e].drop_first()));
    assert(seq![e].drop_first() =~= Seq::<MemEntry<T>>::empty());
    lemma_entries_bytes_nonneg(s1);
    let t2 = sat_add(t1, e.bytes_estimate);
    lemma_evict_accounting(s2, t2, max, thresh);
}

} // verus!
