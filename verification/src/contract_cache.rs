use vstd::prelude::*;

use std::sync::Arc;

use crate::memory::{arc_clone, sat_add, sat_add_exec, sat_add_n, sat_sub, sat_sub_exec};
use crate::strutil::str_eq;

verus! {

/// The resolved contract of one operation, as the invocation pipeline
/// memoizes it.
#[derive(Debug)]
pub struct ContractSnapshot {
    pub resolved_digest: String,
    pub component_id: String,
    pub operation_id: String,
    pub validate_output: bool,
    pub strict: bool,
    pub describe_hash: Option<String>,
    pub schema_hash: Option<String>,
}

/// The byte estimate of a snapshot: a fixed overhead plus its string
/// lengths, clamped at u64.
pub open spec fn snapshot_bytes(s: ContractSnapshot) -> u64 {
    let sum = 128 + s.resolved_digest@.len() + s.component_id@.len() + s.operation_id@.len() + (
    match s.describe_hash {
        Some(h) => h@.len(),
        None => 0,
    }) + (match s.schema_hash {
        Some(h) => h@.len(),
        None => 0,
    });
    if sum > u64::MAX {
        u64::MAX
    } else {
        sum as u64
    }
}

impl ContractSnapshot {
    pub fn new(
        resolved_digest: String,
        component_id: String,
        operation_id: String,
        validate_output: bool,
        strict: bool,
    ) -> (r: ContractSnapshot)
        ensures
            r.resolved_digest@ == resolved_digest@,
            r.component_id@ == component_id@,
            r.operation_id@ == operation_id@,
            r.validate_output == validate_output,
            r.strict == strict,
            r.describe_hash is None,
            r.schema_hash is None,
    {
        ContractSnapshot {
            resolved_digest,
            component_id,
            operation_id,
            validate_output,
            strict,
            describe_hash: None,
            schema_hash: None,
        }
    }

    /// The snapshot's byte estimate.
    pub fn estimated_bytes(&self) -> (r: u64)
        ensures
            r == snapshot_bytes(*self),
    {
        let mut bytes: u64 = 128;
        bytes = sat_add_exec(bytes, self.resolved_digest.as_str().unicode_len() as u64);
        bytes = sat_add_exec(bytes, self.component_id.as_str().unicode_len() as u64);
        bytes = sat_add_exec(bytes, self.operation_id.as_str().unicode_len() as u64);
        if let Some(value) = &self.describe_hash {
            bytes = sat_add_exec(bytes, value.as_str().unicode_len() as u64);
        }
        if let Some(value) = &self.schema_hash {
            bytes = sat_add_exec(bytes, value.as_str().unicode_len() as u64);
        }
        bytes
    }
}

/// One memoized contract with its accounting.
pub struct ContractEntry {
    pub key: String,
    pub snapshot: Arc<ContractSnapshot>,
    pub bytes: u64,
}

/// Counter snapshot of the contract cache.
#[derive(Clone, Copy, Debug, PartialEq, Eq, Structural)]
pub struct ContractCacheStats {
    pub hits: u64,
    pub misses: u64,
    pub evictions: u64,
    pub entries: u64,
    pub total_bytes: u64,
}

/// First index holding the key, or -1.
pub open spec fn cfind_idx(s: Seq<ContractEntry>, k: Seq<char>) -> int
    decreases s.len(),
{
    if s.len() == 0 {
        -1
    } else if s[0].key@ == k {
        0
    } else {
        let r = cfind_idx(s.drop_first(), k);
        if r == -1 {
            -1
        } else {
            1 + r
        }
    }
}

proof fn lemma_cfind_idx_window(s: Seq<ContractEntry>, k: Seq<char>, i: int)
    requires
        0 <= i <= s.len(),
        forall|j: int| 0 <= j < i ==> (#[trigger] s[j]).key@ != k,
        i < s.len() ==> s[i].key@ == k,
    ensures
        cfind_idx(s, k) == if i < s.len() {
            i
        } else {
            -1
        },
    decreases i,
{
    if i == 0 {
    } else {
        assert(s[0].key@ != k);
        lemma_cfind_idx_window(s.drop_first(), k, i - 1);
        assert(forall|j: int| 1 <= j < s.len() ==> s.drop_first()[j - 1] == #[trigger] s[j]);
    }
}

/// Plain least-recently-used eviction: drop from the back until the budget
/// fits or nothing is left.
pub open spec fn cevict(s: Seq<ContractEntry>, total: u64, max: u64) -> (Seq<ContractEntry>, u64, nat)
    decreases s.len(),
{
    if total <= max || s.len() == 0 {
        (s, total, 0)
    } else {
        let r = cevict(s.drop_last(), sat_sub(total, s.last().bytes), max);
        (r.0, r.1, r.2 + 1)
    }
}

/// Law: eviction with a nonzero budget ends at or under the budget, or with
/// an empty cache.
pub proof fn lemma_cevict_bounded(s: Seq<ContractEntry>, total: u64, max: u64)
    ensures
        cevict(s, total, max).1 <= max || cevict(s, total, max).0.len() == 0,
    decreases s.len(),
{
    if total <= max || s.len() == 0 {
    } else {
        lemma_cevict_bounded(s.drop_last(), sat_sub(total, s.last().bytes), max);
    }
}

/// Memoizes contract snapshots by composite key under a byte budget, with
/// least-recently-used eviction; a budget of zero disables eviction.
pub struct ContractCache {
    pub max_bytes: u64,
    pub entries: Vec<ContractEntry>,
    pub total_bytes: u64,
    pub hits: u64,
    pub misses: u64,
    pub evictions: u64,
}

impl ContractCache {
    pub fn new(max_bytes: u64) -> (r: ContractCache)
        ensures
            r.max_bytes == max_bytes,
            r.entries@.len() == 0,
            r.total_bytes == 0,
            r.hits == 0,
            r.misses == 0,
            r.evictions == 0,
    {
        ContractCache {
            max_bytes,
            entries: Vec::new(),
            total_bytes: 0,
            hits: 0,
            misses: 0,
            evictions: 0,
        }
    }

    /// On a hit, counts it, moves the entry to the front and returns the
    /// shared snapshot; on a miss, counts the miss.
    pub fn get(&mut self, key: &str) -> (r: Option<Arc<ContractSnapshot>>)
        ensures
            final(self).max_bytes == old(self).max_bytes,
            final(self).total_bytes == old(self).total_bytes,
            final(self).evictions == old(self).evictions,
            ({
                let s = old(self).entries@;
                let i = cfind_idx(s, key@);
                if i >= 0 {
                    &&& r == Some(s[i].snapshot)
                    &&& final(self).hits == sat_add(old(self).hits, 1)
                    &&& final(self).misses == old(self).misses
                    &&& final(self).entries@ == seq![s[i]] + s.take(i) + s.skip(i + 1)
                } else {
                    &&& r is None
                    &&& final(self).hits == old(self).hits
                    &&& final(self).misses == sat_add(old(self).misses, 1)
                    &&& final(self).entries@ == s
                }
            }),
    {
        let ghost s = self.entries@;
        let n = self.entries.len();
        let mut i: usize = 0;
        while i < n
            invariant
                *self == *old(self),
                s == self.entries@,
                n == s.len(),
                i <= n,
                forall|j: int| 0 <= j < i ==> (#[trigger] s[j]).key@ != key@,
            decreases n - i,
        {
            if str_eq(self.entries[i].key.as_str(), key) {
                proof {
                    lemma_cfind_idx_window(s, key@, i as int);
                }
                let e = self.entries.remove(i);
                let snapshot = arc_clone(&e.snapshot);
                self.entries.insert(0, e);
                self.hits = sat_add_exec(self.hits, 1);
                proof {
                    assert(self.entries@ =~= seq![s[i as int]] + s.take(i as int) + s.skip(
                        i as int + 1,
                    ));
                }
                return Some(snapshot);
            }
            i += 1;
        }
        proof {
            lemma_cfind_idx_window(s, key@, n as int);
        }
        self.misses = sat_add_exec(self.misses, 1);
        None
    }

    /// Replaces any entry for the key, adds the new snapshot at the front,
    /// then evicts from the least recently used end until the budget fits.
    pub fn insert(&mut self, key: String, snapshot: Arc<ContractSnapshot>)
        ensures
            final(self).max_bytes == old(self).max_bytes,
            final(self).hits == old(self).hits,
            final(self).misses == old(self).misses,
            ({
                let s = old(self).entries@;
                let i = cfind_idx(s, key@);
                let s1 = if i >= 0 {
                    s.take(i) + s.skip(i + 1)
                } else {
                    s
                };
                let t1 = if i >= 0 {
                    sat_sub(old(self).total_bytes, s[i].bytes)
                } else {
                    old(self).total_bytes
                };
                let b = snapshot_bytes(*snapshot);
                let s2 = seq![(ContractEntry { key: key, snapshot: snapshot, bytes: b })] + s1;
                let t2 = sat_add(t1, b);
                let ev = if old(self).max_bytes == 0 {
                    (s2, t2, 0nat)
                } else {
                    cevict(s2, t2, old(self).max_bytes)
                };
                &&& final(self).entries@ == ev.0
                &&& final(self).total_bytes == ev.1
                &&& final(self).evictions == sat_add_n(old(self).evictions, ev.2 as int)
            }),
    {
        let ghost s = self.entries@;
        let n = self.entries.len();
        let mut i: usize = 0;
        let mut found = false;
        while i < n && !found
            invariant
                *self == *old(self),
                s == self.entries@,
                n == s.len(),
                i <= n,
                forall|j: int| 0 <= j < i ==> (#[trigger] s[j]).key@ != key@,
                found ==> i < n && s[i as int].key@ == key@,
            decreases n - i, if found {
                0int
            } else {
                1int
            },
        {
            if str_eq(self.entries[i].key.as_str(), key.as_str()) {
                found = true;
            } else {
                i += 1;
            }
        }
        proof {
            if found {
                lemma_cfind_idx_window(s, key@, i as int);
            } else {
                lemma_cfind_idx_window(s, key@, n as int);
            }
        }
        if found {
            let e = self.entries.remove(i);
            self.total_bytes = sat_sub_exec(self.total_bytes, e.bytes);
            proof {
                assert(self.entries@ =~= s.take(i as int) + s.skip(i as int + 1));
            }
        }
        let bytes = snapshot.estimated_bytes();
        let entry = ContractEntry { key, snapshot, bytes };
        let ghost ge = entry;
        self.entries.insert(0, entry);
        self.total_bytes = sat_add_exec(self.total_bytes, bytes);
        proof {
            assert(self.entries@ =~= seq![ge] + (if cfind_idx(s, ge.key@) >= 0 {
                s.take(cfind_idx(s, ge.key@)) + s.skip(cfind_idx(s, ge.key@) + 1)
            } else {
                s
            }));
        }
        if self.max_bytes == 0 {
            return ;
        }
        let max = self.max_bytes;
        let ghost s0 = self.entries@;
        let ghost t0 = self.total_bytes;
        let ghost ev0 = self.evictions;
        let ghost goal = cevict(s0, t0, max);
        let ghost mut gcount: int = 0;
        while self.total_bytes > max && self.entries.len() > 0
            invariant
                self.max_bytes == max,
                self.hits == old(self).hits,
                self.misses == old(self).misses,
                goal == cevict(s0, t0, max),
                cevict(self.entries@, self.total_bytes, max) == (
                    goal.0,
                    goal.1,
                    (goal.2 - gcount) as nat,
                ),
                0 <= gcount <= goal.2,
                self.evictions == sat_add_n(ev0, gcount),
            decreases self.entries@.len(),
        {
            let n2 = self.entries.len();
            let ghost cur = self.entries@;
            let ghost curt = self.total_bytes;
            let e = self.entries.remove(n2 - 1);
            proof {
                assert(self.entries@ =~= cur.drop_last());
                assert(e == cur.last());
            }
            self.total_bytes = sat_sub_exec(self.total_bytes, e.bytes);
            self.evictions = sat_add_exec(self.evictions, 1);
            proof {
                let r = cevict(self.entries@, self.total_bytes, max);
                assert(cevict(cur, curt, max) == (r.0, r.1, r.2 + 1));
                gcount = gcount + 1;
            }
        }
        proof {
            assert(cevict(self.entries@, self.total_bytes, max) == (
                self.entries@,
                self.total_bytes,
                0nat,
            ));
        }
    }

    /// Counter snapshot.
    pub fn stats(&self) -> (r: ContractCacheStats)
        ensures
            r.hits == self.hits,
            r.misses == self.misses,
            r.evictions == self.evictions,
            r.entries as int == self.entries@.len(),
            r.total_bytes == self.total_bytes,
    {
        ContractCacheStats {
            hits: self.hits,
            misses: self.misses,
            evictions: self.evictions,
            entries: self.entries.len() as u64,
            total_bytes: self.total_bytes,
        }
    }
}

/// Total byte estimate of a sequence of contract entries.
pub open spec fn centries_bytes(s: Seq<ContractEntry>) -> int
    decreases s.len(),
{
    if s.len() == 0 {
        0
    } else {
        s[0].bytes + centries_bytes(s.drop_first())
    }
}

proof fn lemma_centries_bytes_nonneg(s: Seq<ContractEntry>)
    ensures
        centries_bytes(s) >= 0,
    decreases s.len(),
{
    if s.len() > 0 {
        lemma_centries_bytes_nonneg(s.drop_first());
    }
}

proof fn lemma_centries_bytes_concat(a: Seq<ContractEntry>, b: Seq<ContractEntry>)
    ensures
        centries_bytes(a + b) == centries_bytes(a) + centries_bytes(b),
    decreases a.len(),
{
    if a.len() == 0 {
        assert(a + b =~= b);
    } else {
        assert((a + b)[0] == a[0]);
        assert((a + b).drop_first() =~= a.drop_first() + b);
        lemma_centries_bytes_concat(a.drop_first(), b);
    }
}

proof fn lemma_centries_bytes_last(s: Seq<ContractEntry>)
    requires
        s.len() > 0,
    ensures
        centries_bytes(s) == centries_bytes(s.drop_last()) + s.last().bytes,
{
    assert(s =~= s.drop_last() + seq![s.last()]);
    lemma_centries_bytes_concat(s.drop_last(), seq![s.last()]);
    assert(centries_bytes(seq![s.last()]) == s.last().bytes + centries_bytes(
        seq![s.last()].drop_first(),
    ));
    assert(seq![s.last()].drop_first() =~= Seq::<ContractEntry>::empty());
}

/// Law: eviction keeps the total equal to the summed estimates.
pub proof fn lemma_cevict_accounting(s: Seq<ContractEntry>, total: u64, max: u64)
    requires
        total as int == centries_bytes(s),
    ensures
        cevict(s, total, max).1 as int == centries_bytes(cevict(s, total, max).0),
    decreases s.len(),
{
    if total <= max || s.len() == 0 {
    } else {
        lemma_centries_bytes_last(s);
        lemma_centries_bytes_nonneg(s.drop_last());
        assert(sat_sub(total, s.last().bytes) as int == centries_bytes(s.drop_last()));
        lemma_cevict_accounting(s.drop_last(), sat_sub(total, s.last().bytes), max);
    }
}

/// Law: a lookup's move-to-front keeps the summed estimates unchanged.
pub proof fn lemma_cget_accounting(s: Seq<ContractEntry>, i: int)
    requires
        0 <= i < s.len(),
    ensures
        centries_bytes(seq![s[i]] + s.take(i) + s.skip(i + 1)) == centries_bytes(s),
{
    lemma_centries_bytes_concat(seq![s[i]] + s.take(i), s.skip(i + 1));
    lemma_centries_bytes_concat(seq![s[i]], s.take(i));
    assert(centries_bytes(seq![s[i]]) == s[i].bytes + centries_bytes(seq![s[i]].drop_first()));
    assert(seq![s[i]].drop_first() =~= Seq::<ContractEntry>::empty());
    assert(s =~= s.take(i) + (seq![s[i]] + s.skip(i + 1)));
    lemma_centries_bytes_concat(s.take(i), seq![s[i]] + s.skip(i + 1));
    lemma_centries_bytes_concat(seq![s[i]], s.skip(i + 1));
}

/// Law: the accounting invariant — `total_bytes` equals the summed
/// estimates — is kept by an insert whenever the sum after the replacement
/// and addition still fits in u64.
pub proof fn lemma_cinsert_accounting(
    s: Seq<ContractEntry>,
    total: u64,
    k: Seq<char>,
    e: ContractEntry,
    max: u64,
)
    requires
        total as int == centries_bytes(s),
        ({
            let i = cfind_idx(s, k);
            let s1 = if i >= 0 {
                s.take(i) + s.skip(i + 1)
            } else {
                s
            };
            -1 <= i < s.len() && centries_bytes(s1) + e.bytes <= u64::MAX
        }),
    ensures
        ({
            let i = cfind_idx(s, k);
            let s1 = if i >= 0 {
                s.take(i) + s.skip(i + 1)
            } else {
                s
            };
            let t1 = if i >= 0 {
                sat_sub(total, s[i].bytes)
            } else {
                total
            };
            let s2 = seq![e] + s1;
            let t2 = sat_add(t1, e.bytes);
            let ev = cevict(s2, t2, max);
            &&& t1 as int == centries_bytes(s1)
            &&& t2 as int == centries_bytes(s2)
            &&& ev.1 as int == centries_bytes(ev.0)
        }),
{
    let i = cfind_idx(s, k);
    let s1 = if i >= 0 {
        s.take(i) + s.skip(i + 1)
    } else {
        s
    };
    if i >= 0 {
        assert(s =~= s.take(i) + (seq![s[i]] + s.skip(i + 1)));
        lemma_centries_bytes_concat(s.take(i), seq![s[i]] + s.skip(i + 1));
        lemma_centries_bytes_concat(seq![s[i]], s.skip(i + 1));
        assert(centries_bytes(seq![s[i]]) == s[i].bytes + centries_bytes(
            seq![s[i]].drop_first(),
        ));
        assert(seq![s[i]].drop_first() =~= Seq::<ContractEntry>::empty());
        lemma_centries_bytes_concat(s.take(i), s.skip(i + 1));
        lemma_centries_bytes_nonneg(s.take(i));
        lemma_centries_bytes_nonneg(s.skip(i + 1));
    }
    let t1 = if i >= 0 {
        sat_sub(total, s[i].bytes)
    } else {
        total
    };
    let s2 = seq![e] + s1;
    lemma_centries_bytes_concat(seq![e], s1);
    assert(centries_bytes(seq![e]) == e.bytes + centries_bytes(seq![e].drop_first()));
    assert(seq![e].drop_first() =~= Seq::<ContractEntry>::empty());
    lemma_centries_bytes_nonneg(s1);
    lemma_cevict_accounting(s2, sat_add(t1, e.bytes), max);
}

} // verus!
