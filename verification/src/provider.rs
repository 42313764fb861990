use vstd::prelude::*;

use crate::registry::{opt_view, OperatorProviderMetadata, ProviderRuntimeRef};
use crate::strutil::str_eq;

verus! {

/// A resolved provider runtime binding.
#[derive(Debug)]
pub struct ProviderBinding {
    pub provider_id: Option<String>,
    pub provider_type: String,
    pub component_ref: String,
    pub export: String,
    pub world: String,
    pub config_json: Option<String>,
    pub pack_ref: Option<String>,
}

/// The binding an inline declaration yields; a missing provider id falls
/// back to the given default.
pub fn binding_from_decl(
    decl: &OperatorProviderMetadata,
    pack_ref: Option<&str>,
    default_provider_id: Option<&str>,
) -> (r: ProviderBinding)
    ensures
        opt_view(r.provider_id) == (match decl.provider_id {
            Some(p) => Some(p@),
            None => match default_provider_id {
                Some(d) => Some(d@),
                None => None,
            },
        }),
        r.provider_type@ == decl.provider_type@,
        r.component_ref@ == decl.runtime.component_ref@,
        r.export@ == decl.runtime.export@,
        r.world@ == decl.runtime.world@,
        r.config_json is None,
        opt_view(r.pack_ref) == (match pack_ref {
            Some(p) => Some(p@),
            None => None,
        }),
{
    ProviderBinding {
        provider_id: match &decl.provider_id {
            Some(p) => Some(p.clone()),
            None => match default_provider_id {
                Some(d) => Some(d.to_owned()),
                None => None,
            },
        },
        provider_type: decl.provider_type.clone(),
        component_ref: decl.runtime.component_ref.clone(),
        export: decl.runtime.export.clone(),
        world: decl.runtime.world.clone(),
        config_json: None,
        pack_ref: match pack_ref {
            Some(p) => Some(p.to_owned()),
            None => None,
        },
    }
}

/// How many inline declarations carry the given provider type.
pub open spec fn count_type(ds: Seq<OperatorProviderMetadata>, t: Seq<char>) -> int
    decreases ds.len(),
{
    if ds.len() == 0 {
        0
    } else {
        (if ds[0].provider_type@ == t {
            1int
        } else {
            0
        }) + count_type(ds.drop_first(), t)
    }
}

/// First declaration with the given provider id, or -1.
pub open spec fn decl_with_id(ds: Seq<OperatorProviderMetadata>, id: Seq<char>) -> int
    decreases ds.len(),
{
    if ds.len() == 0 {
        -1
    } else if ds[0].provider_id matches Some(p) && p@ == id {
        0
    } else {
        let r = decl_with_id(ds.drop_first(), id);
        if r == -1 {
            -1
        } else {
            1 + r
        }
    }
}

proof fn lemma_decl_with_id_window(ds: Seq<OperatorProviderMetadata>, id: Seq<char>, i: int)
    requires
        0 <= i <= ds.len(),
        forall|j: int|
            0 <= j < i ==> !((#[trigger] ds[j]).provider_id matches Some(p) && p@ == id),
        i < ds.len() ==> (ds[i].provider_id matches Some(p) && p@ == id),
    ensures
        decl_with_id(ds, id) == if i < ds.len() {
            i
        } else {
            -1
        },
    decreases i,
{
    if i == 0 {
    } else {
        assert(!(ds[0].provider_id matches Some(p) && p@ == id));
        lemma_decl_with_id_window(ds.drop_first(), id, i - 1);
        assert(forall|j: int| 1 <= j < ds.len() ==> ds.drop_first()[j - 1] == #[trigger] ds[j]);
    }
}

proof fn lemma_count_type_snoc(ds: Seq<OperatorProviderMetadata>, d: OperatorProviderMetadata, t: Seq<char>)
    ensures
        count_type(ds.push(d), t) == count_type(ds, t) + (if d.provider_type@ == t {
            1int
        } else {
            0
        }),
    decreases ds.len(),
{
    if ds.len() == 0 {
        assert(ds.push(d)[0] == d);
        assert(ds.push(d).drop_first() =~= Seq::<OperatorProviderMetadata>::empty());
        assert(count_type(ds.push(d).drop_first(), t) == 0);
    } else {
        assert(ds.push(d)[0] == ds[0]);
        assert(ds.push(d).drop_first() =~= ds.drop_first().push(d));
        lemma_count_type_snoc(ds.drop_first(), d, t);
    }
}

proof fn lemma_count_type_zero(ds: Seq<OperatorProviderMetadata>, t: Seq<char>)
    requires
        forall|j: int| 0 <= j < ds.len() ==> (#[trigger] ds[j]).provider_type@ != t,
    ensures
        count_type(ds, t) == 0,
    decreases ds.len(),
{
    if ds.len() > 0 {
        assert(forall|j: int|
            0 <= j < ds.drop_first().len() ==> #[trigger] ds.drop_first()[j] == ds[j + 1]);
        lemma_count_type_zero(ds.drop_first(), t);
    }
}

/// First declaration with the given provider type, or -1.
pub open spec fn first_of_type(ds: Seq<OperatorProviderMetadata>, t: Seq<char>) -> int
    decreases ds.len(),
{
    if ds.len() == 0 {
        -1
    } else if ds[0].provider_type@ == t {
        0
    } else {
        let r = first_of_type(ds.drop_first(), t);
        if r == -1 {
            -1
        } else {
            1 + r
        }
    }
}

proof fn lemma_first_of_type_window(ds: Seq<OperatorProviderMetadata>, t: Seq<char>, i: int)
    requires
        0 <= i <= ds.len(),
        forall|j: int| 0 <= j < i ==> (#[trigger] ds[j]).provider_type@ != t,
        i < ds.len() ==> ds[i].provider_type@ == t,
    ensures
        first_of_type(ds, t) == if i < ds.len() {
            i
        } else {
            -1
        },
    decreases i,
{
    if i == 0 {
    } else {
        assert(ds[0].provider_type@ != t);
        lemma_first_of_type_window(ds.drop_first(), t, i - 1);
        assert(forall|j: int| 1 <= j < ds.len() ==> ds.drop_first()[j - 1] == #[trigger] ds[j]);
    }
}

/// The inline provider declarations of one pack, resolvable by id or type.
#[derive(Debug)]
pub struct ProviderRegistry {
    pub pack_ref: Option<String>,
    pub inline: Vec<OperatorProviderMetadata>,
}

impl ProviderRegistry {
    /// Resolves an inline declaration: by id when one is named; by type
    /// otherwise, which must match exactly one declaration.
    pub fn resolve(&self, provider_id: Option<&str>, provider_type: Option<&str>) -> (r: Result<
        ProviderBinding,
        String,
    >)
        ensures
            provider_id is None && provider_type is None ==> (r matches Err(e) && e@
                == "provider.invoke requires provider_id or provider_type"@),
            ({
                provider_id matches Some(id) ==> {
                    let i = decl_with_id(self.inline@, id@);
                    if i >= 0 {
                        r matches Ok(b) && b.provider_type@ == self.inline@[i].provider_type@
                            && b.component_ref@ == self.inline@[i].runtime.component_ref@
                            && b.export@ == self.inline@[i].runtime.export@ && b.world@
                            == self.inline@[i].runtime.world@
                    } else {
                        r matches Err(e) && e@ == "provider_id `"@ + id@ + "` not found"@
                    }
                }
            }),
            ({
                if provider_id is None {
                    provider_type matches Some(t) ==> {
                    let c = count_type(self.inline@, t@);
                    if c == 0 {
                        r matches Err(e) && e@ == "no provider runtime found for type `"@ + t@
                            + "`"@
                    } else if c > 1 {
                        r matches Err(e) && e@ == "multiple providers found for type `"@ + t@
                            + "`, specify provider_id"@
                    } else {
                        let i = first_of_type(self.inline@, t@);
                        r matches Ok(b) && i >= 0 && b.provider_type@
                            == self.inline@[i].provider_type@ && b.component_ref@
                            == self.inline@[i].runtime.component_ref@
                    }
                }
                } else {
                    true
                }
            }),
    {
        if provider_id.is_none() && provider_type.is_none() {
            return Err("provider.invoke requires provider_id or provider_type".to_owned());
        }
        if let Some(id) = provider_id {
            let n = self.inline.len();
            let mut i: usize = 0;
            while i < n
                invariant
                    provider_id == Some(id),
                    n == self.inline@.len(),
                    i <= n,
                    forall|j: int|
                        0 <= j < i ==> !((#[trigger] self.inline@[j]).provider_id matches Some(p)
                            && p@ == id@),
                decreases n - i,
            {
                let hit = match &self.inline[i].provider_id {
                    Some(p) => str_eq(p.as_str(), id),
                    None => false,
                };
                if hit {
                    proof {
                        lemma_decl_with_id_window(self.inline@, id@, i as int);
                    }
                    return Ok(
                        binding_from_decl(
                            &self.inline[i],
                            match &self.pack_ref {
                                Some(p) => Some(p.as_str()),
                                None => None,
                            },
                            None,
                        ),
                    );
                }
                i += 1;
            }
            proof {
                lemma_decl_with_id_window(self.inline@, id@, n as int);
            }
            let mut msg = "provider_id `".to_owned();
            msg.append(id);
            msg.append("` not found");
            return Err(msg);
        }
        let t = match provider_type {
            Some(t) => t,
            None => {
                return Err("provider.invoke requires provider_id or provider_type".to_owned());
            },
        };
        let n = self.inline.len();
        let mut matched: Option<usize> = None;
        let mut count: usize = 0;
        let mut i: usize = 0;
        proof {
            assert(self.inline@.take(0) =~= Seq::<OperatorProviderMetadata>::empty());
        }
        while i < n
            invariant
                provider_id is None,
                provider_type == Some(t),
                n == self.inline@.len(),
                i <= n,
                count <= i,
                count as int == count_type(self.inline@.take(i as int), t@),
                matched matches Some(m) ==> m < i && self.inline@[m as int].provider_type@ == t@
                    && (forall|j: int|
                    0 <= j < m ==> (#[trigger] self.inline@[j]).provider_type@ != t@),
                matched is None ==> forall|j: int|
                    0 <= j < i ==> (#[trigger] self.inline@[j]).provider_type@ != t@,
            decreases n - i,
        {
            proof {
                assert(self.inline@.take(i as int).push(self.inline@[i as int]) =~= self.inline@.take(
                    i as int + 1,
                ));
                lemma_count_type_snoc(self.inline@.take(i as int), self.inline@[i as int], t@);
            }
            if str_eq(self.inline[i].provider_type.as_str(), t) {
                if matched.is_none() {
                    matched = Some(i);
                }
                count += 1;
            }
            i += 1;
        }
        proof {
            assert(self.inline@.take(n as int) =~= self.inline@);
            match matched {
                Some(m) => {
                    lemma_first_of_type_window(self.inline@, t@, m as int);
                },
                None => {
                    lemma_first_of_type_window(self.inline@, t@, n as int);
                },
            }
        }
        if count == 0 {
            let mut msg = "no provider runtime found for type `".to_owned();
            msg.append(t);
            msg.append("`");
            return Err(msg);
        }
        if count > 1 {
            let mut msg = "multiple providers found for type `".to_owned();
            msg.append(t);
            msg.append("`, specify provider_id");
            return Err(msg);
        }
        let m = match matched {
            Some(m) => m,
            None => {
                proof {
                    lemma_count_type_zero(self.inline@, t@);
                }
                let mut msg = "no provider runtime found for type `".to_owned();
                msg.append(t);
                msg.append("`");
                return Err(msg);
            },
        };
        Ok(
            binding_from_decl(
                &self.inline[m],
                match &self.pack_ref {
                    Some(p) => Some(p.as_str()),
                    None => None,
                },
                Some(t),
            ),
        )
    }
}

} // verus!
