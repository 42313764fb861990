use vstd::prelude::*;

use vstd::utf8::encode_utf8;

use crate::hashing::{sha256_prefixed, sha256_prefixed_of};

verus! {

/// Code-generation policy of the execution substrate.
#[derive(Clone, Copy, Debug, PartialEq, Eq, Structural)]
pub enum CpuPolicy {
    Native,
    Baseline,
}

/// The textual name of a CPU policy.
pub open spec fn policy_str(p: CpuPolicy) -> Seq<char> {
    match p {
        CpuPolicy::Native => "native"@,
        CpuPolicy::Baseline => "baseline"@,
    }
}

impl CpuPolicy {
    pub fn as_str(&self) -> (r: &'static str)
        ensures
            r@ == policy_str(*self),
    {
        match self {
            CpuPolicy::Native => "native",
            CpuPolicy::Baseline => "baseline",
        }
    }
}

/// The bytes whose digest partitions the caches: version, triple, policy
/// name and fingerprint, concatenated as UTF-8.
pub open spec fn profile_material(
    wasmtime_version: Seq<char>,
    target_triple: Seq<char>,
    cpu_policy: CpuPolicy,
    config_fingerprint: Seq<char>,
) -> Seq<u8> {
    encode_utf8(wasmtime_version) + encode_utf8(target_triple) + encode_utf8(
        policy_str(cpu_policy),
    ) + encode_utf8(config_fingerprint)
}

/// The engine profile id: `sha256:<hex>` over the profile material.
pub open spec fn profile_id_of(
    wasmtime_version: Seq<char>,
    target_triple: Seq<char>,
    cpu_policy: CpuPolicy,
    config_fingerprint: Seq<char>,
) -> Seq<char> {
    sha256_prefixed_of(profile_material(wasmtime_version, target_triple, cpu_policy,
        config_fingerprint))
}

/// Fingerprint of the execution substrate; artifacts compiled under one
/// profile are never loaded under another.
#[derive(Debug)]
pub struct EngineProfile {
    pub wasmtime_version: String,
    pub target_triple: String,
    pub cpu_policy: CpuPolicy,
    pub config_fingerprint: String,
    pub engine_profile_id: String,
}

impl EngineProfile {
    /// The id field is the digest of the other four fields.
    pub open spec fn wf(&self) -> bool {
        self.engine_profile_id@ == profile_id_of(
            self.wasmtime_version@,
            self.target_triple@,
            self.cpu_policy,
            self.config_fingerprint@,
        )
    }

    /// Builds a profile from its parts, deriving the profile id.
    pub fn from_parts(
        wasmtime_version: String,
        target_triple: String,
        cpu_policy: CpuPolicy,
        config_fingerprint: String,
    ) -> (r: EngineProfile)
        ensures
            r.wasmtime_version@ == wasmtime_version@,
            r.target_triple@ == target_triple@,
            r.cpu_policy == cpu_policy,
            r.config_fingerprint@ == config_fingerprint@,
            r.wf(),
    {
        let engine_profile_id = compute_engine_profile_id(
            wasmtime_version.as_str(),
            target_triple.as_str(),
            cpu_policy,
            config_fingerprint.as_str(),
        );
        EngineProfile {
            wasmtime_version,
            target_triple,
            cpu_policy,
            config_fingerprint,
            engine_profile_id,
        }
    }

    pub fn id(&self) -> (r: &str)
        ensures
            r@ == self.engine_profile_id@,
    {
        self.engine_profile_id.as_str()
    }

    /// A field-for-field copy.
    pub fn dup(&self) -> (r: EngineProfile)
        ensures
            r.wasmtime_version@ == self.wasmtime_version@,
            r.target_triple@ == self.target_triple@,
            r.cpu_policy == self.cpu_policy,
            r.config_fingerprint@ == self.config_fingerprint@,
            r.engine_profile_id@ == self.engine_profile_id@,
    {
        EngineProfile {
            wasmtime_version: self.wasmtime_version.clone(),
            target_triple: self.target_triple.clone(),
            cpu_policy: self.cpu_policy,
            config_fingerprint: self.config_fingerprint.clone(),
            engine_profile_id: self.engine_profile_id.clone(),
        }
    }
}

/// Digest of version, triple, policy and fingerprint, spelled `sha256:<hex>`.
pub fn compute_engine_profile_id(
    wasmtime_version: &str,
    target_triple: &str,
    cpu_policy: CpuPolicy,
    config_fingerprint: &str,
) -> (r: String)
    ensures
        r@ == profile_id_of(wasmtime_version@, target_triple@, cpu_policy, config_fingerprint@),
{
    let mut material: Vec<u8> = Vec::new();
    let mut part = vstd::slice::slice_to_vec(wasmtime_version.as_bytes());
    material.append(&mut part);
    let mut part = vstd::slice::slice_to_vec(target_triple.as_bytes());
    material.append(&mut part);
    let mut part = vstd::slice::slice_to_vec(cpu_policy.as_str().as_bytes());
    material.append(&mut part);
    let mut part = vstd::slice::slice_to_vec(config_fingerprint.as_bytes());
    material.append(&mut part);
    proof {
        assert(material@ =~= profile_material(wasmtime_version@, target_triple@, cpu_policy,
            config_fingerprint@));
    }
    sha256_prefixed(&material)
}

/// Law: two well-formed profiles built from equal parts carry equal ids.
pub proof fn lemma_profile_id_deterministic(a: EngineProfile, b: EngineProfile)
    requires
        a.wf(),
        b.wf(),
        a.wasmtime_version@ == b.wasmtime_version@,
        a.target_triple@ == b.target_triple@,
        a.cpu_policy == b.cpu_policy,
        a.config_fingerprint@ == b.config_fingerprint@,
    ensures
        a.engine_profile_id@ == b.engine_profile_id@,
{
}

} // verus!
