use vstd::prelude::*;

use crate::strutil::str_eq;

verus! {

/// Where a provider's operations run inside a pack.
#[derive(Debug)]
pub struct ProviderRuntimeRef {
    pub component_ref: String,
    pub export: String,
    pub world: String,
}

impl ProviderRuntimeRef {
    /// A field-for-field copy.
    pub fn dup(&self) -> (r: ProviderRuntimeRef)
        ensures
            r == *self,
    {
        ProviderRuntimeRef {
            component_ref: self.component_ref.clone(),
            export: self.export.clone(),
            world: self.world.clone(),
        }
    }
}

/// One provider declaration as a loaded pack exposes it.
#[derive(Debug)]
pub struct OperatorProviderMetadata {
    pub provider_id: Option<String>,
    pub provider_type: String,
    pub capabilities: Vec<String>,
    pub ops: Vec<String>,
    pub config_schema_ref: Option<String>,
    pub state_schema_ref: Option<String>,
    pub runtime: ProviderRuntimeRef,
    pub docs_ref: Option<String>,
    pub pack_ref: Option<String>,
}

/// The provider declarations of one loaded pack.
#[derive(Debug)]
pub struct PackProviders {
    pub pack_id: String,
    pub version: String,
    pub digest: Option<String>,
    pub providers: Vec<OperatorProviderMetadata>,
}

/// One resolvable operation.
#[derive(Debug)]
pub struct OperatorBinding {
    pub provider_id: Option<String>,
    pub provider_type: String,
    pub op_id: String,
    pub runtime: ProviderRuntimeRef,
    pub pack_ref: String,
    pub pack_digest: Option<String>,
    pub config_schema_ref: Option<String>,
    pub state_schema_ref: Option<String>,
    pub docs_ref: Option<String>,
    pub capabilities: Vec<String>,
    pub pack_priority: usize,
}

#[derive(Debug, PartialEq, Eq, Structural)]
pub enum OperatorResolveError {
    ProviderNotFound,
    OpNotFound,
}

/// The abstract contents of a binding.
pub struct BindingView {
    pub provider_id: Option<Seq<char>>,
    pub provider_type: Seq<char>,
    pub op_id: Seq<char>,
    pub component_ref: Seq<char>,
    pub export: Seq<char>,
    pub world: Seq<char>,
    pub pack_ref: Seq<char>,
    pub pack_digest: Option<Seq<char>>,
    pub config_schema_ref: Option<Seq<char>>,
    pub state_schema_ref: Option<Seq<char>>,
    pub docs_ref: Option<Seq<char>>,
    pub capabilities: Seq<Seq<char>>,
    pub pack_priority: int,
}

/// View of an optional string.
pub open spec fn opt_view(o: Option<String>) -> Option<Seq<char>> {
    match o {
        Some(s) => Some(s@),
        None => None,
    }
}

/// Views of a list of strings.
pub open spec fn strs_view(s: Seq<String>) -> Seq<Seq<char>> {
    Seq::new(
        s.len(),
        |i: int|
            if 0 <= i < s.len() {
                s[i]@
            } else {
                Seq::empty()
            },
    )
}

/// The abstract contents of a concrete binding.
pub open spec fn bv_of(b: OperatorBinding) -> BindingView {
    BindingView {
        provider_id: opt_view(b.provider_id),
        provider_type: b.provider_type@,
        op_id: b.op_id@,
        component_ref: b.runtime.component_ref@,
        export: b.runtime.export@,
        world: b.runtime.world@,
        pack_ref: b.pack_ref@,
        pack_digest: opt_view(b.pack_digest),
        config_schema_ref: opt_view(b.config_schema_ref),
        state_schema_ref: opt_view(b.state_schema_ref),
        docs_ref: opt_view(b.docs_ref),
        capabilities: strs_view(b.capabilities@),
        pack_priority: b.pack_priority as int,
    }
}

/// Views of a list of bindings.
pub open spec fn bvs_of(s: Seq<OperatorBinding>) -> Seq<BindingView> {
    Seq::new(
        s.len(),
        |i: int|
            if 0 <= i < s.len() {
                bv_of(s[i])
            } else {
                bv_of(s[0])
            },
    )
}

/// The pack reference a declaration binds under: its own, or the pack's
/// `id@version`.
pub open spec fn pack_ref_view(p: PackProviders, d: OperatorProviderMetadata) -> Seq<char> {
    match d.pack_ref {
        Some(r) => r@,
        None => p.pack_id@ + "@"@ + p.version@,
    }
}

/// The binding a declaration produces for one operation.
pub open spec fn bv_from_decl(
    d: OperatorProviderMetadata,
    op: Seq<char>,
    pref: Seq<char>,
    digest: Option<Seq<char>>,
    prio: int,
) -> BindingView {
    BindingView {
        provider_id: opt_view(d.provider_id),
        provider_type: d.provider_type@,
        op_id: op,
        component_ref: d.runtime.component_ref@,
        export: d.runtime.export@,
        world: d.runtime.world@,
        pack_ref: pref,
        pack_digest: digest,
        config_schema_ref: opt_view(d.config_schema_ref),
        state_schema_ref: opt_view(d.state_schema_ref),
        docs_ref: opt_view(d.docs_ref),
        capabilities: strs_view(d.capabilities@),
        pack_priority: prio,
    }
}

/// All bindings of one declaration, one per operation.
pub open spec fn decl_bindings(
    d: OperatorProviderMetadata,
    pref: Seq<char>,
    digest: Option<Seq<char>>,
    prio: int,
) -> Seq<BindingView> {
    Seq::new(
        d.ops@.len(),
        |i: int|
            if 0 <= i < d.ops@.len() {
                bv_from_decl(d, d.ops@[i]@, pref, digest, prio)
            } else {
                bv_from_decl(d, Seq::empty(), pref, digest, prio)
            },
    )
}

/// The declaration's bindings for the id index: present only when the
/// provider exposes an id.
pub open spec fn decl_id_bindings(
    d: OperatorProviderMetadata,
    pref: Seq<char>,
    digest: Option<Seq<char>>,
    prio: int,
) -> Seq<BindingView> {
    if d.provider_id is Some {
        decl_bindings(d, pref, digest, prio)
    } else {
        Seq::empty()
    }
}

/// All type-index bindings of one pack's declarations.
pub open spec fn provs_bindings(p: PackProviders, ds: Seq<OperatorProviderMetadata>, prio: int) -> Seq<BindingView>
    decreases ds.len(),
{
    if ds.len() == 0 {
        Seq::empty()
    } else {
        decl_bindings(ds[0], pack_ref_view(p, ds[0]), opt_view(p.digest), prio) + provs_bindings(
            p,
            ds.drop_first(),
            prio,
        )
    }
}

/// All id-index bindings of one pack's declarations.
pub open spec fn provs_id_bindings(p: PackProviders, ds: Seq<OperatorProviderMetadata>, prio: int) -> Seq<BindingView>
    decreases ds.len(),
{
    if ds.len() == 0 {
        Seq::empty()
    } else {
        decl_id_bindings(ds[0], pack_ref_view(p, ds[0]), opt_view(p.digest), prio)
            + provs_id_bindings(p, ds.drop_first(), prio)
    }
}

/// All type-index bindings of a pack list; the priority is the pack's index.
pub open spec fn packs_bindings(packs: Seq<PackProviders>, prio0: int) -> Seq<BindingView>
    decreases packs.len(),
{
    if packs.len() == 0 {
        Seq::empty()
    } else {
        provs_bindings(packs[0], packs[0].providers@, prio0) + packs_bindings(
            packs.drop_first(),
            prio0 + 1,
        )
    }
}

/// All id-index bindings of a pack list.
pub open spec fn packs_id_bindings(packs: Seq<PackProviders>, prio0: int) -> Seq<BindingView>
    decreases packs.len(),
{
    if packs.len() == 0 {
        Seq::empty()
    } else {
        provs_id_bindings(packs[0], packs[0].providers@, prio0) + packs_id_bindings(
            packs.drop_first(),
            prio0 + 1,
        )
    }
}

/// Index of the binding that wins a lookup: the last with the matching
/// selector and operation, or -1.
pub open spec fn last_match(
    s: Seq<BindingView>,
    by_id: bool,
    sel: Seq<char>,
    op: Seq<char>,
) -> int
    decreases s.len(),
{
    if s.len() == 0 {
        -1
    } else {
        let last = s[s.len() - 1];
        let sel_hit = if by_id {
            last.provider_id == Some(sel)
        } else {
            last.provider_type == sel
        };
        if sel_hit && last.op_id == op {
            s.len() - 1
        } else {
            last_match(s.drop_last(), by_id, sel, op)
        }
    }
}

/// Whether any binding carries the selector at all.
pub open spec fn has_selector(s: Seq<BindingView>, by_id: bool, sel: Seq<char>) -> bool {
    exists|i: int|
        0 <= i < s.len() && (if by_id {
            (#[trigger] s[i]).provider_id == Some(sel)
        } else {
            s[i].provider_type == sel
        })
}

/// What a resolution must return over the two indices.
pub open spec fn resolve_spec(
    by_id: Seq<BindingView>,
    by_type: Seq<BindingView>,
    provider_id: Option<Seq<char>>,
    provider_type: Option<Seq<char>>,
    op: Seq<char>,
) -> Result<BindingView, OperatorResolveError> {
    if provider_id is Some {
        let id = provider_id->0;
        if !has_selector(by_id, true, id) {
            Err(OperatorResolveError::ProviderNotFound)
        } else if last_match(by_id, true, id, op) >= 0 {
            Ok(by_id[last_match(by_id, true, id, op)])
        } else {
            Err(OperatorResolveError::OpNotFound)
        }
    } else if provider_type is Some {
        let t = provider_type->0;
        if !has_selector(by_type, false, t) {
            Err(OperatorResolveError::ProviderNotFound)
        } else if last_match(by_type, false, t, op) >= 0 {
            Ok(by_type[last_match(by_type, false, t, op)])
        } else {
            Err(OperatorResolveError::OpNotFound)
        }
    } else {
        Err(OperatorResolveError::ProviderNotFound)
    }
}

/// Index of every operation declared by the loaded packs, under provider id
/// and under provider type; later packs shadow earlier ones.
#[derive(Debug)]
pub struct OperatorRegistry {
    pub by_id: Vec<OperatorBinding>,
    pub by_type: Vec<OperatorBinding>,
}

fn clone_opt(o: &Option<String>) -> (r: Option<String>)
    ensures
        r == *o,
{
    match o {
        Some(s) => Some(s.clone()),
        None => None,
    }
}

fn clone_strs(v: &Vec<String>) -> (r: Vec<String>)
    ensures
        r@ == v@,
{
    let mut out: Vec<String> = Vec::new();
    let n = v.len();
    let mut i: usize = 0;
    while i < n
        invariant
            n == v@.len(),
            i <= n,
            out@.len() == i,
            forall|j: int| 0 <= j < i ==> out@[j] == v@[j],
        decreases n - i,
    {
        out.push(v[i].clone());
        i += 1;
    }
    proof {
        assert(out@ =~= v@);
    }
    out
}

impl OperatorBinding {
    /// A copy with the same abstract contents.
    pub fn dup(&self) -> (r: OperatorBinding)
        ensures
            bv_of(r) == bv_of(*self),
    {
        let r = OperatorBinding {
            provider_id: clone_opt(&self.provider_id),
            provider_type: self.provider_type.clone(),
            op_id: self.op_id.clone(),
            runtime: self.runtime.dup(),
            pack_ref: self.pack_ref.clone(),
            pack_digest: clone_opt(&self.pack_digest),
            config_schema_ref: clone_opt(&self.config_schema_ref),
            state_schema_ref: clone_opt(&self.state_schema_ref),
            docs_ref: clone_opt(&self.docs_ref),
            capabilities: clone_strs(&self.capabilities),
            pack_priority: self.pack_priority,
        };
        proof {
            assert(strs_view(r.capabilities@) =~= strs_view(self.capabilities@));
        }
        r
    }
}

proof fn lemma_bvs_snoc(s: Seq<OperatorBinding>, b: OperatorBinding)
    ensures
        bvs_of(s.push(b)) == bvs_of(s).push(bv_of(b)),
{
    assert(bvs_of(s.push(b)) =~= bvs_of(s).push(bv_of(b)));
}

proof fn lemma_provs_snoc(p: PackProviders, ds: Seq<OperatorProviderMetadata>, d: OperatorProviderMetadata, prio: int)
    ensures
        provs_bindings(p, ds.push(d), prio) == provs_bindings(p, ds, prio) + decl_bindings(
            d,
            pack_ref_view(p, d),
            opt_view(p.digest),
            prio,
        ),
        provs_id_bindings(p, ds.push(d), prio) == provs_id_bindings(p, ds, prio)
            + decl_id_bindings(d, pack_ref_view(p, d), opt_view(p.digest), prio),
    decreases ds.len(),
{
    if ds.len() == 0 {
        assert(ds.push(d)[0] == d);
        assert(ds.push(d).drop_first() =~= Seq::<OperatorProviderMetadata>::empty());
        assert(provs_bindings(p, ds.push(d).drop_first(), prio) == Seq::<BindingView>::empty());
        assert(provs_bindings(p, ds.push(d), prio) =~= provs_bindings(p, ds, prio)
            + decl_bindings(d, pack_ref_view(p, d), opt_view(p.digest), prio));
        assert(provs_id_bindings(p, ds.push(d).drop_first(), prio) == Seq::<BindingView>::empty());
        assert(provs_id_bindings(p, ds.push(d), prio) =~= provs_id_bindings(p, ds, prio)
            + decl_id_bindings(d, pack_ref_view(p, d), opt_view(p.digest), prio));
    } else {
        assert(ds.push(d)[0] == ds[0]);
        assert(ds.push(d).drop_first() =~= ds.drop_first().push(d));
        lemma_provs_snoc(p, ds.drop_first(), d, prio);
        assert(provs_bindings(p, ds.push(d), prio) =~= provs_bindings(p, ds, prio)
            + decl_bindings(d, pack_ref_view(p, d), opt_view(p.digest), prio));
        assert(provs_id_bindings(p, ds.push(d), prio) =~= provs_id_bindings(p, ds, prio)
            + decl_id_bindings(d, pack_ref_view(p, d), opt_view(p.digest), prio));
    }
}

proof fn lemma_packs_snoc(packs: Seq<PackProviders>, p: PackProviders, prio0: int)
    ensures
        packs_bindings(packs.push(p), prio0) == packs_bindings(packs, prio0) + provs_bindings(
            p,
            p.providers@,
            prio0 + packs.len(),
        ),
        packs_id_bindings(packs.push(p), prio0) == packs_id_bindings(packs, prio0)
            + provs_id_bindings(p, p.providers@, prio0 + packs.len()),
    decreases packs.len(),
{
    if packs.len() == 0 {
        assert(packs.push(p)[0] == p);
        assert(packs.push(p).drop_first() =~= Seq::<PackProviders>::empty());
        assert(packs_bindings(packs.push(p).drop_first(), prio0 + 1) == Seq::<BindingView>::empty());
        assert(packs_bindings(packs.push(p), prio0) =~= packs_bindings(packs, prio0)
            + provs_bindings(p, p.providers@, prio0));
        assert(packs_id_bindings(packs.push(p).drop_first(), prio0 + 1) == Seq::<
            BindingView,
        >::empty());
        assert(packs_id_bindings(packs.push(p), prio0) =~= packs_id_bindings(packs, prio0)
            + provs_id_bindings(p, p.providers@, prio0));
    } else {
        assert(packs.push(p)[0] == packs[0]);
        assert(packs.push(p).drop_first() =~= packs.drop_first().push(p));
        lemma_packs_snoc(packs.drop_first(), p, prio0 + 1);
        assert(packs_bindings(packs.push(p), prio0) =~= packs_bindings(packs, prio0)
            + provs_bindings(p, p.providers@, prio0 + packs.len()));
        assert(packs_id_bindings(packs.push(p), prio0) =~= packs_id_bindings(packs, prio0)
            + provs_id_bindings(p, p.providers@, prio0 + packs.len()));
    }
}

proof fn lemma_last_match_window(s: Seq<BindingView>, by_id: bool, sel: Seq<char>, op: Seq<char>, i: int)
    requires
        -1 <= i < s.len(),
        forall|j: int|
            i < j < s.len() ==> !((if by_id {
                (#[trigger] s[j]).provider_id == Some(sel)
            } else {
                s[j].provider_type == sel
            }) && s[j].op_id == op),
        i >= 0 ==> ((if by_id {
            s[i].provider_id == Some(sel)
        } else {
            s[i].provider_type == sel
        }) && s[i].op_id == op),
    ensures
        last_match(s, by_id, sel, op) == i,
    decreases s.len(),
{
    if s.len() == 0 {
    } else if i == s.len() - 1 {
    } else {
        assert(forall|j: int|
            i < j < s.len() - 1 ==> s.drop_last()[j] == #[trigger] s[j]);
        lemma_last_match_window(s.drop_last(), by_id, sel, op, i);
    }
}

impl OperatorRegistry {
    /// Builds the index over a sequence of loaded packs: every declared
    /// operation becomes one binding in the type index, and one in the id
    /// index when the provider exposes an id. The pack's position is its
    /// priority; a lookup takes the last inserted match, so later packs win.
    pub fn build(packs: &Vec<PackProviders>) -> (r: OperatorRegistry)
        ensures
            bvs_of(r.by_type@) == packs_bindings(packs@, 0),
            bvs_of(r.by_id@) == packs_id_bindings(packs@, 0),
    {
        let mut by_id: Vec<OperatorBinding> = Vec::new();
        let mut by_type: Vec<OperatorBinding> = Vec::new();
        let n = packs.len();
        let mut pi: usize = 0;
        proof {
            assert(packs@.take(0) =~= Seq::<PackProviders>::empty());
            assert(bvs_of(by_type@) =~= packs_bindings(packs@.take(0), 0));
            assert(bvs_of(by_id@) =~= packs_id_bindings(packs@.take(0), 0));
        }
        while pi < n
            invariant
                n == packs@.len(),
                pi <= n,
                bvs_of(by_type@) == packs_bindings(packs@.take(pi as int), 0),
                bvs_of(by_id@) == packs_id_bindings(packs@.take(pi as int), 0),
            decreases n - pi,
        {
            let pack = &packs[pi];
            let mut computed_ref = pack.pack_id.clone();
            computed_ref.append("@");
            computed_ref.append(pack.version.as_str());
            let ghost pack_v = packs@[pi as int];
            let m = pack.providers.len();
            let mut di: usize = 0;
            proof {
                assert(pack_v.providers@.take(0) =~= Seq::<OperatorProviderMetadata>::empty());
                assert(provs_bindings(pack_v, pack_v.providers@.take(0), pi as int) == Seq::<
                    BindingView,
                >::empty());
                assert(provs_id_bindings(pack_v, pack_v.providers@.take(0), pi as int) == Seq::<
                    BindingView,
                >::empty());
                assert(bvs_of(by_type@) =~= bvs_of(by_type@) + Seq::<BindingView>::empty());
                assert(bvs_of(by_id@) =~= bvs_of(by_id@) + Seq::<BindingView>::empty());
            }
            let ghost ty0 = bvs_of(by_type@);
            let ghost id0 = bvs_of(by_id@);
            while di < m
                invariant
                    n == packs@.len(),
                    pi < n,
                    pack_v == packs@[pi as int],
                    *pack == pack_v,
                    m == pack_v.providers@.len(),
                    di <= m,
                    computed_ref@ == pack_v.pack_id@ + "@"@ + pack_v.version@,
                    ty0 == packs_bindings(packs@.take(pi as int), 0),
                    id0 == packs_id_bindings(packs@.take(pi as int), 0),
                    bvs_of(by_type@) == ty0 + provs_bindings(
                        pack_v,
                        pack_v.providers@.take(di as int),
                        pi as int,
                    ),
                    bvs_of(by_id@) == id0 + provs_id_bindings(
                        pack_v,
                        pack_v.providers@.take(di as int),
                        pi as int,
                    ),
                decreases m - di,
            {
                let decl = &pack.providers[di];
                let ghost decl_v = pack_v.providers@[di as int];
                let pack_ref: String = match &decl.pack_ref {
                    Some(r) => r.clone(),
                    None => computed_ref.clone(),
                };
                proof {
                    assert(pack_ref@ == pack_ref_view(pack_v, decl_v));
                }
                let k = decl.ops.len();
                let mut oi: usize = 0;
                let ghost ty1 = bvs_of(by_type@);
                let ghost id1 = bvs_of(by_id@);
                proof {
                    assert(bvs_of(by_type@) =~= ty1 + decl_bindings(
                        decl_v,
                        pack_ref_view(pack_v, decl_v),
                        opt_view(pack_v.digest),
                        pi as int,
                    ).take(0));
                    assert(bvs_of(by_id@) =~= id1 + decl_id_bindings(
                        decl_v,
                        pack_ref_view(pack_v, decl_v),
                        opt_view(pack_v.digest),
                        pi as int,
                    ).take(0));
                }
                while oi < k
                    invariant
                        n == packs@.len(),
                        pi < n,
                        pack_v == packs@[pi as int],
                        *pack == pack_v,
                        m == pack_v.providers@.len(),
                        di < m,
                        decl_v == pack_v.providers@[di as int],
                        *decl == decl_v,
                        k == decl_v.ops@.len(),
                        oi <= k,
                        pack_ref@ == pack_ref_view(pack_v, decl_v),
                        bvs_of(by_type@) == ty1 + decl_bindings(
                            decl_v,
                            pack_ref_view(pack_v, decl_v),
                            opt_view(pack_v.digest),
                            pi as int,
                        ).take(oi as int),
                        bvs_of(by_id@) == id1 + decl_id_bindings(
                            decl_v,
                            pack_ref_view(pack_v, decl_v),
                            opt_view(pack_v.digest),
                            pi as int,
                        ).take(if decl_v.provider_id is Some {
                            oi as int
                        } else {
                            0
                        }),
                    decreases k - oi,
                {
                    let binding = OperatorBinding {
                        provider_id: clone_opt(&decl.provider_id),
                        provider_type: decl.provider_type.clone(),
                        op_id: decl.ops[oi].clone(),
                        runtime: decl.runtime.dup(),
                        pack_ref: pack_ref.clone(),
                        pack_digest: clone_opt(&pack.digest),
                        config_schema_ref: clone_opt(&decl.config_schema_ref),
                        state_schema_ref: clone_opt(&decl.state_schema_ref),
                        docs_ref: clone_opt(&decl.docs_ref),
                        capabilities: clone_strs(&decl.capabilities),
                        pack_priority: pi,
                    };
                    let ghost bv = bv_of(binding);
                    proof {
                        assert(strs_view(binding.capabilities@) =~= strs_view(
                            decl_v.capabilities@,
                        ));
                        assert(bv == decl_bindings(
                            decl_v,
                            pack_ref_view(pack_v, decl_v),
                            opt_view(pack_v.digest),
                            pi as int,
                        )[oi as int]);
                    }
                    if binding.provider_id.is_some() {
                        let copy = binding.dup();
                        let ghost old_id = by_id@;
                        by_id.push(copy);
                        proof {
                            lemma_bvs_snoc(old_id, copy);
                            assert(decl_id_bindings(
                                decl_v,
                                pack_ref_view(pack_v, decl_v),
                                opt_view(pack_v.digest),
                                pi as int,
                            ).take(oi as int).push(bv) =~= decl_id_bindings(
                                decl_v,
                                pack_ref_view(pack_v, decl_v),
                                opt_view(pack_v.digest),
                                pi as int,
                            ).take(oi as int + 1));
                            assert(bvs_of(by_id@) =~= id1 + decl_id_bindings(
                                decl_v,
                                pack_ref_view(pack_v, decl_v),
                                opt_view(pack_v.digest),
                                pi as int,
                            ).take(oi as int + 1));
                        }
                    }
                    let ghost old_ty = by_type@;
                    by_type.push(binding);
                    proof {
                        lemma_bvs_snoc(old_ty, binding);
                        assert(decl_bindings(
                            decl_v,
                            pack_ref_view(pack_v, decl_v),
                            opt_view(pack_v.digest),
                            pi as int,
                        ).take(oi as int).push(bv) =~= decl_bindings(
                            decl_v,
                            pack_ref_view(pack_v, decl_v),
                            opt_view(pack_v.digest),
                            pi as int,
                        ).take(oi as int + 1));
                        assert(bvs_of(by_type@) =~= ty1 + decl_bindings(
                            decl_v,
                            pack_ref_view(pack_v, decl_v),
                            opt_view(pack_v.digest),
                            pi as int,
                        ).take(oi as int + 1));
                    }
                    oi += 1;
                }
                proof {
                    let ghost db = decl_bindings(
                        decl_v,
                        pack_ref_view(pack_v, decl_v),
                        opt_view(pack_v.digest),
                        pi as int,
                    );
                    assert(db.take(k as int) =~= db);
                    let ghost dib = decl_id_bindings(
                        decl_v,
                        pack_ref_view(pack_v, decl_v),
                        opt_view(pack_v.digest),
                        pi as int,
                    );
                    if decl_v.provider_id is Some {
                        assert(dib.take(k as int) =~= dib);
                    } else {
                        assert(dib.take(0) =~= dib);
                    }
                    lemma_provs_snoc(pack_v, pack_v.providers@.take(di as int), decl_v, pi as int);
                    assert(pack_v.providers@.take(di as int).push(decl_v) =~= pack_v.providers@.take(
                        di as int + 1,
                    ));
                    assert(bvs_of(by_type@) =~= ty0 + provs_bindings(
                        pack_v,
                        pack_v.providers@.take(di as int + 1),
                        pi as int,
                    ));
                    assert(bvs_of(by_id@) =~= id0 + provs_id_bindings(
                        pack_v,
                        pack_v.providers@.take(di as int + 1),
                        pi as int,
                    ));
                }
                di += 1;
            }
            proof {
                assert(pack_v.providers@.take(m as int) =~= pack_v.providers@);
                lemma_packs_snoc(packs@.take(pi as int), pack_v, 0);
                assert(packs@.take(pi as int).push(pack_v) =~= packs@.take(pi as int + 1));
                assert(bvs_of(by_type@) =~= packs_bindings(packs@.take(pi as int + 1), 0));
                assert(bvs_of(by_id@) =~= packs_id_bindings(packs@.take(pi as int + 1), 0));
            }
            pi += 1;
        }
        proof {
            assert(packs@.take(n as int) =~= packs@);
        }
        OperatorRegistry { by_id, by_type }
    }

    /// Resolves a selector and operation: the id index when `provider_id`
    /// is set (ignoring the type), else the type index; an absent provider
    /// and an unknown operation report different errors.
    pub fn resolve<'a>(
        &'a self,
        provider_id: Option<&str>,
        provider_type: Option<&str>,
        op_id: &str,
    ) -> (r: Result<&'a OperatorBinding, OperatorResolveError>)
        ensures
            ({
                let spec_r = resolve_spec(
                    bvs_of(self.by_id@),
                    bvs_of(self.by_type@),
                    match provider_id {
                        Some(s) => Some(s@),
                        None => None,
                    },
                    match provider_type {
                        Some(s) => Some(s@),
                        None => None,
                    },
                    op_id@,
                );
                match r {
                    Ok(b) => spec_r == Ok::<BindingView, OperatorResolveError>(bv_of(*b)),
                    Err(e) => spec_r == Err::<BindingView, OperatorResolveError>(e),
                }
            }),
    {
        if let Some(id) = provider_id {
            self.lookup(true, id, op_id)
        } else if let Some(t) = provider_type {
            self.lookup(false, t, op_id)
        } else {
            Err(OperatorResolveError::ProviderNotFound)
        }
    }

    /// Lookup in one index: provider presence first, then the last binding
    /// matching the operation.
    fn lookup<'a>(&'a self, by_id: bool, sel: &str, op_id: &str) -> (r: Result<
        &'a OperatorBinding,
        OperatorResolveError,
    >)
        ensures
            ({
                let s = bvs_of(
                    if by_id {
                        self.by_id@
                    } else {
                        self.by_type@
                    },
                );
                match r {
                    Ok(b) => has_selector(s, by_id, sel@) && last_match(s, by_id, sel@, op_id@)
                        >= 0 && bv_of(*b) == s[last_match(s, by_id, sel@, op_id@)],
                    Err(e) => if !has_selector(s, by_id, sel@) {
                        e == OperatorResolveError::ProviderNotFound
                    } else {
                        e == OperatorResolveError::OpNotFound && last_match(s, by_id, sel@, op_id@)
                            < 0
                    },
                }
            }),
    {
        let vec: &Vec<OperatorBinding> = if by_id {
            &self.by_id
        } else {
            &self.by_type
        };
        let ghost s = bvs_of(vec@);
        let n = vec.len();
        // provider presence
        let mut seen = false;
        let mut i: usize = 0;
        while i < n && !seen
            invariant
                s == bvs_of(vec@),
                vec@ == if by_id { self.by_id@ } else { self.by_type@ },
                n == vec@.len(),
                i <= n,
                forall|j: int|
                    0 <= j < i ==> !(if by_id {
                        (#[trigger] s[j]).provider_id == Some(sel@)
                    } else {
                        s[j].provider_type == sel@
                    }),
                seen ==> has_selector(s, by_id, sel@),
            decreases n - i, if seen {
                0int
            } else {
                1int
            },
        {
            let hit = if by_id {
                match &vec[i].provider_id {
                    Some(pid) => str_eq(pid.as_str(), sel),
                    None => false,
                }
            } else {
                str_eq(vec[i].provider_type.as_str(), sel)
            };
            if hit {
                proof {
                    if by_id {
                        assert(s[i as int].provider_id == Some(sel@));
                    } else {
                        assert(s[i as int].provider_type == sel@);
                    }
                }
                seen = true;
            } else {
                i += 1;
            }
        }
        if !seen {
            proof {
                assert(!has_selector(s, by_id, sel@));
            }
            return Err(OperatorResolveError::ProviderNotFound);
        }
        // last match wins
        let mut j: usize = n;
        while j > 0
            invariant
                s == bvs_of(vec@),
                vec@ == if by_id { self.by_id@ } else { self.by_type@ },
                n == vec@.len(),
                j <= n,
                forall|t: int|
                    j <= t < n ==> !((if by_id {
                        (#[trigger] s[t]).provider_id == Some(sel@)
                    } else {
                        s[t].provider_type == sel@
                    }) && s[t].op_id == op_id@),
                has_selector(s, by_id, sel@),
            decreases j,
        {
            j -= 1;
            let sel_hit = if by_id {
                match &vec[j].provider_id {
                    Some(pid) => str_eq(pid.as_str(), sel),
                    None => false,
                }
            } else {
                str_eq(vec[j].provider_type.as_str(), sel)
            };
            if sel_hit && str_eq(vec[j].op_id.as_str(), op_id) {
                proof {
                    lemma_last_match_window(s, by_id, sel@, op_id@, j as int);
                }
                return Ok(&vec[j]);
            }
        }
        proof {
            lemma_last_match_window(s, by_id, sel@, op_id@, -1);
        }
        Err(OperatorResolveError::OpNotFound)
    }
}

} // verus!
