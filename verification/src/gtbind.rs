use vstd::prelude::*;

use crate::registry::strs_view;
use crate::strutil::{lex_lt, str_eq, str_lt};

verus! {

/// One pack pinned for a tenant.
#[derive(Debug)]
pub struct PackBinding {
    pub pack_id: String,
    pub pack_ref: String,
    pub pack_locator: Option<String>,
    pub flows: Vec<String>,
}

/// Everything bound for one tenant, merged over its binding files.
#[derive(Debug)]
pub struct TenantBindings {
    pub tenant: String,
    pub packs: Vec<PackBinding>,
    pub env_passthrough: Vec<String>,
}

/// One parsed binding file.
#[derive(Debug)]
pub struct GtBindFile {
    pub tenant: String,
    pub pack_id: String,
    pub pack_ref: String,
    pub pack_locator: Option<String>,
    pub flows: Vec<String>,
    pub env_passthrough: Vec<String>,
}

/// Inserts a string into a list, keeping ascending order and dropping an
/// exact duplicate.
pub open spec fn insert_unique(x: Seq<char>, s: Seq<Seq<char>>) -> Seq<Seq<char>>
    decreases s.len(),
{
    if s.len() == 0 {
        seq![x]
    } else if lex_lt(s[0], x) {
        seq![s[0]] + insert_unique(x, s.drop_first())
    } else if s[0] == x {
        s
    } else {
        seq![x] + s
    }
}

/// Ascending duplicate-free arrangement of a list.
pub open spec fn sort_unique(s: Seq<Seq<char>>) -> Seq<Seq<char>>
    decreases s.len(),
{
    if s.len() == 0 {
        s
    } else {
        insert_unique(s[0], sort_unique(s.drop_first()))
    }
}

proof fn lemma_insert_unique_window(x: Seq<char>, s: Seq<Seq<char>>, p: int)
    requires
        0 <= p <= s.len(),
        forall|j: int| 0 <= j < p ==> lex_lt(#[trigger] s[j], x),
        p < s.len() ==> !lex_lt(s[p], x),
    ensures
        insert_unique(x, s) == if p < s.len() && s[p] == x {
            s
        } else {
            s.take(p) + seq![x] + s.skip(p)
        },
    decreases p,
{
    if p == 0 {
        if s.len() == 0 {
            assert(s.take(0) + seq![x] + s.skip(0) =~= seq![x]);
        } else if s[0] == x {
        } else {
            assert(s.take(0) + seq![x] + s.skip(0) =~= seq![x] + s);
        }
    } else {
        assert(lex_lt(s[0], x));
        lemma_insert_unique_window(x, s.drop_first(), p - 1);
        if p < s.len() && s[p] == x {
            assert(s.drop_first()[p - 1] == s[p]);
        } else {
            assert(s.take(p) + seq![x] + s.skip(p) =~= seq![s[0]] + (s.drop_first().take(p - 1)
                + seq![x] + s.drop_first().skip(p - 1)));
        }
    }
}

/// Inserts a string into an ordered list, dropping duplicates.
fn insert_unique_exec(x: String, out: &mut Vec<String>)
    ensures
        strs_view(final(out)@) == insert_unique(x@, strs_view(old(out)@)),
{
    let ghost s = strs_view(out@);
    let m = out.len();
    let mut p: usize = 0;
    while p < m && str_lt(out[p].as_str(), x.as_str())
        invariant
            s == strs_view(out@),
            m == out@.len(),
            p <= m,
            forall|j: int| 0 <= j < p ==> lex_lt(#[trigger] s[j], x@),
        decreases m - p,
    {
        proof {
            assert(s[p as int] == out@[p as int]@);
        }
        p += 1;
    }
    proof {
        if p < m {
            assert(s[p as int] == out@[p as int]@);
        }
        lemma_insert_unique_window(x@, s, p as int);
    }
    if p < m && str_eq(out[p].as_str(), x.as_str()) {
        proof {
            assert(strs_view(out@) =~= insert_unique(x@, s));
        }
        return ;
    }
    let ghost old_out = out@;
    out.insert(p, x);
    proof {
        assert(strs_view(out@) =~= strs_view(old_out).take(p as int) + seq![x@] + strs_view(
            old_out,
        ).skip(p as int));
    }
}

/// Ascending duplicate-free arrangement of the concatenation of two lists.
pub fn sort_unique_concat(a: &Vec<String>, b: &Vec<String>) -> (r: Vec<String>)
    ensures
        strs_view(r@) == sort_unique(strs_view(a@) + strs_view(b@)),
{
    let ghost whole = strs_view(a@) + strs_view(b@);
    let na = a.len();
    let nb = b.len();
    let mut out: Vec<String> = Vec::new();
    proof {
        assert(whole.skip(whole.len() as int) =~= Seq::<Seq<char>>::empty());
        assert(strs_view(out@) =~= sort_unique(whole.skip(whole.len() as int)));
    }
    let mut i: usize = nb;
    while i > 0
        invariant
            whole == strs_view(a@) + strs_view(b@),
            na == a@.len(),
            nb == b@.len(),
            whole.len() == na + nb,
            i <= nb,
            strs_view(out@) == sort_unique(whole.skip(na + i)),
        decreases i,
    {
        i -= 1;
        let x: String = b[i].clone();
        proof {
            assert(whole[na + i] == x@);
            assert(whole.skip(na + i)[0] == whole[na + i]);
            assert(whole.skip(na + i).drop_first() =~= whole.skip(na + i + 1));
        }
        insert_unique_exec(x, &mut out);
    }
    let mut i: usize = na;
    while i > 0
        invariant
            whole == strs_view(a@) + strs_view(b@),
            na == a@.len(),
            nb == b@.len(),
            whole.len() == na + nb,
            i <= na,
            strs_view(out@) == sort_unique(whole.skip(i as int)),
        decreases i,
    {
        i -= 1;
        let x: String = a[i].clone();
        proof {
            assert(whole[i as int] == x@);
            assert(whole.skip(i as int)[0] == whole[i as int]);
            assert(whole.skip(i as int).drop_first() =~= whole.skip(i as int + 1));
        }
        insert_unique_exec(x, &mut out);
    }
    proof {
        assert(whole.skip(0) =~= whole);
    }
    out
}

/// First index whose pack id equals the given one, or -1.
pub open spec fn pack_idx(s: Seq<PackBinding>, id: Seq<char>) -> int
    decreases s.len(),
{
    if s.len() == 0 {
        -1
    } else if s[0].pack_id@ == id {
        0
    } else {
        let r = pack_idx(s.drop_first(), id);
        if r == -1 {
            -1
        } else {
            1 + r
        }
    }
}

/// Where a new pack id lands: before the first id not below it.
pub open spec fn pack_insert_pos(s: Seq<PackBinding>, id: Seq<char>) -> int
    decreases s.len(),
{
    if s.len() == 0 {
        0
    } else if lex_lt(s[0].pack_id@, id) {
        1 + pack_insert_pos(s.drop_first(), id)
    } else {
        0
    }
}

proof fn lemma_pack_insert_pos_window(s: Seq<PackBinding>, id: Seq<char>, p: int)
    requires
        0 <= p <= s.len(),
        forall|j: int| 0 <= j < p ==> lex_lt((#[trigger] s[j]).pack_id@, id),
        p < s.len() ==> !lex_lt(s[p].pack_id@, id),
    ensures
        pack_insert_pos(s, id) == p,
    decreases p,
{
    if p == 0 {
    } else {
        assert(lex_lt(s[0].pack_id@, id));
        lemma_pack_insert_pos_window(s.drop_first(), id, p - 1);
    }
}

proof fn lemma_pack_idx_window(s: Seq<PackBinding>, id: Seq<char>, i: int)
    requires
        0 <= i <= s.len(),
        forall|j: int| 0 <= j < i ==> (#[trigger] s[j]).pack_id@ != id,
        i < s.len() ==> s[i].pack_id@ == id,
    ensures
        pack_idx(s, id) == if i < s.len() {
            i
        } else {
            -1
        },
    decreases i,
{
    if i == 0 {
    } else {
        assert(s[0].pack_id@ != id);
        lemma_pack_idx_window(s.drop_first(), id, i - 1);
        assert(forall|j: int| 1 <= j < s.len() ==> s.drop_first()[j - 1] == #[trigger] s[j]);
    }
}

impl TenantBindings {
    /// Fresh bindings for one tenant.
    pub fn new(tenant: String) -> (r: TenantBindings)
        ensures
            r.tenant@ == tenant@,
            r.packs@.len() == 0,
            r.env_passthrough@.len() == 0,
    {
        TenantBindings { tenant, packs: Vec::new(), env_passthrough: Vec::new() }
    }

    /// Merges one pack binding in. A new pack id is inserted in id order;
    /// an existing one must agree on the pack reference, a locator may be
    /// filled in but never changed, and the flow lists are united, kept
    /// ascending and duplicate-free. Conflicts are fatal.
    pub fn merge_pack(&mut self, pack: PackBinding) -> (r: Result<(), String>)
        ensures
            ({
                let s = old(self).packs@;
                let i = pack_idx(s, pack.pack_id@);
                if i >= 0 {
                    if s[i].pack_ref@ != pack.pack_ref@ {
                        &&& r matches Err(e) && e@ == "pack_ref mismatch for tenant "@ + old(
                            self,
                        ).tenant@ + " pack "@ + pack.pack_id@
                        &&& *final(self) == *old(self)
                    } else if (s[i].pack_locator matches Some(a) && pack.pack_locator
                        matches Some(b) && a@ != b@) {
                        &&& r matches Err(e) && e@ == "pack_locator mismatch for tenant "@ + old(
                            self,
                        ).tenant@ + " pack "@ + pack.pack_id@
                        &&& *final(self) == *old(self)
                    } else {
                        &&& r is Ok
                        &&& final(self).tenant == old(self).tenant
                        &&& final(self).env_passthrough == old(self).env_passthrough
                        &&& final(self).packs@.len() == s.len()
                        &&& (forall|j: int|
                            0 <= j < s.len() && j != i ==> final(self).packs@[j] == s[j])
                        &&& final(self).packs@[i].pack_id@ == pack.pack_id@
                        &&& final(self).packs@[i].pack_ref@ == s[i].pack_ref@
                        &&& crate::registry::opt_view(final(self).packs@[i].pack_locator) == (
                        match s[i].pack_locator {
                            Some(a) => Some(a@),
                            None => crate::registry::opt_view(pack.pack_locator),
                        })
                        &&& strs_view(final(self).packs@[i].flows@) == sort_unique(
                            strs_view(s[i].flows@) + strs_view(pack.flows@),
                        )
                    }
                } else {
                    let p = pack_insert_pos(s, pack.pack_id@);
                    &&& r is Ok
                    &&& final(self).tenant == old(self).tenant
                    &&& final(self).env_passthrough == old(self).env_passthrough
                    &&& final(self).packs@ == s.take(p) + seq![pack] + s.skip(p)
                }
            }),
    {
        let ghost s = self.packs@;
        let n = self.packs.len();
        let mut i: usize = 0;
        let mut found = false;
        while i < n && !found
            invariant
                *self == *old(self),
                s == self.packs@,
                n == s.len(),
                i <= n,
                forall|j: int| 0 <= j < i ==> (#[trigger] s[j]).pack_id@ != pack.pack_id@,
                found ==> i < n && s[i as int].pack_id@ == pack.pack_id@,
            decreases n - i, if found {
                0int
            } else {
                1int
            },
        {
            if str_eq(self.packs[i].pack_id.as_str(), pack.pack_id.as_str()) {
                found = true;
            } else {
                i += 1;
            }
        }
        proof {
            if found {
                lemma_pack_idx_window(s, pack.pack_id@, i as int);
            } else {
                lemma_pack_idx_window(s, pack.pack_id@, n as int);
            }
        }
        if found {
            if !str_eq(self.packs[i].pack_ref.as_str(), pack.pack_ref.as_str()) {
                let mut msg = "pack_ref mismatch for tenant ".to_owned();
                msg.append(self.tenant.as_str());
                msg.append(" pack ");
                msg.append(pack.pack_id.as_str());
                return Err(msg);
            }
            let locator_conflict = match (&self.packs[i].pack_locator, &pack.pack_locator) {
                (Some(a), Some(b)) => !str_eq(a.as_str(), b.as_str()),
                _ => false,
            };
            if locator_conflict {
                let mut msg = "pack_locator mismatch for tenant ".to_owned();
                msg.append(self.tenant.as_str());
                msg.append(" pack ");
                msg.append(pack.pack_id.as_str());
                return Err(msg);
            }
            let merged_flows = sort_unique_concat(&self.packs[i].flows, &pack.flows);
            let existing = self.packs.remove(i);
            let updated = PackBinding {
                pack_id: existing.pack_id,
                pack_ref: existing.pack_ref,
                pack_locator: match existing.pack_locator {
                    Some(a) => Some(a),
                    None => pack.pack_locator,
                },
                flows: merged_flows,
            };
            self.packs.insert(i, updated);
            proof {
                assert(forall|j: int|
                    0 <= j < s.len() && j != i as int ==> final(self).packs@[j] == s[j]);
            }
            Ok(())
        } else {
            // insert in ascending pack id order
            let m = self.packs.len();
            let mut p: usize = 0;
            while p < m && str_lt(self.packs[p].pack_id.as_str(), pack.pack_id.as_str())
                invariant
                    *self == *old(self),
                    s == self.packs@,
                    m == s.len(),
                    p <= m,
                    forall|j: int| 0 <= j < p ==> lex_lt((#[trigger] s[j]).pack_id@, pack.pack_id@),
                decreases m - p,
            {
                p += 1;
            }
            proof {
                lemma_pack_insert_pos_window(s, pack.pack_id@, p as int);
            }
            let ghost gp = pack;
            self.packs.insert(p, pack);
            proof {
                assert(self.packs@ =~= s.take(p as int) + seq![gp] + s.skip(p as int));
            }
            Ok(())
        }
    }

    /// Merges environment pass-through names in, kept ascending and
    /// duplicate-free.
    pub fn merge_env(&mut self, envs: &Vec<String>)
        ensures
            final(self).tenant == old(self).tenant,
            final(self).packs == old(self).packs,
            strs_view(final(self).env_passthrough@) == sort_unique(
                strs_view(old(self).env_passthrough@) + strs_view(envs@),
            ),
    {
        let merged = sort_unique_concat(&self.env_passthrough, envs);
        self.env_passthrough = merged;
    }
}

/// Checks one parsed binding file: the tenant, pack id and pack reference
/// must be non-blank after trimming, and blank flow ids are dropped.
pub fn check_gtbind_file(file: &GtBindFile) -> (r: Result<Vec<String>, String>)
    ensures
        r is Ok <==> (crate::strutil::trim_spec(file.pack_id@).len() > 0
            && crate::strutil::trim_spec(file.pack_ref@).len() > 0 && crate::strutil::trim_spec(
            file.tenant@,
        ).len() > 0),
        r matches Ok(flows) ==> {
            let fv = strs_view(file.flows@);
            let kept = fv.filter(|f: Seq<char>| crate::strutil::trim_spec(f).len() > 0);
            strs_view(flows@) == kept
        },
        r matches Err(e) ==> (if crate::strutil::trim_spec(file.pack_id@).len() == 0 {
            e@ == "gtbind missing pack_id"@
        } else if crate::strutil::trim_spec(file.pack_ref@).len() == 0 {
            e@ == "gtbind missing pack_ref"@
        } else {
            e@ == "gtbind missing tenant"@
        }),
{
    if crate::strutil::trim(file.pack_id.as_str()).as_str().unicode_len() == 0 {
        return Err("gtbind missing pack_id".to_owned());
    }
    if crate::strutil::trim(file.pack_ref.as_str()).as_str().unicode_len() == 0 {
        return Err("gtbind missing pack_ref".to_owned());
    }
    if crate::strutil::trim(file.tenant.as_str()).as_str().unicode_len() == 0 {
        return Err("gtbind missing tenant".to_owned());
    }
    let ghost fv = strs_view(file.flows@);
    let n = file.flows.len();
    let mut kept: Vec<String> = Vec::new();
    let mut i: usize = 0;
    proof {
        assert(fv.take(0).filter(|f: Seq<char>| crate::strutil::trim_spec(f).len() > 0) =~= Seq::<
            Seq<char>,
        >::empty());
        assert(strs_view(kept@) =~= fv.take(0).filter(
            |f: Seq<char>| crate::strutil::trim_spec(f).len() > 0,
        ));
    }
    while i < n
        invariant
            fv == strs_view(file.flows@),
            n == fv.len(),
            i <= n,
            strs_view(kept@) == fv.take(i as int).filter(
                |f: Seq<char>| crate::strutil::trim_spec(f).len() > 0,
            ),
        decreases n - i,
    {
        proof {
            reveal_with_fuel(Seq::filter, 2);
            assert(fv.take(i as int).push(fv[i as int]) =~= fv.take(i as int + 1));
            assert(fv.take(i as int + 1).drop_last() =~= fv.take(i as int));
        }
        if crate::strutil::trim(file.flows[i].as_str()).as_str().unicode_len() > 0 {
            let ghost old_kept = strs_view(kept@);
            kept.push(file.flows[i].clone());
            proof {
                assert(strs_view(kept@) =~= old_kept.push(fv[i as int]));
            }
        }
        i += 1;
    }
    proof {
        assert(fv.take(n as int) =~= fv);
    }
    Ok(kept)
}

} // verus!
