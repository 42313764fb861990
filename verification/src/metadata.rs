use vstd::prelude::*;

use crate::engine_profile::{policy_str, EngineProfile};
use crate::strutil::str_eq;

verus! {

/// On-disk sidecar record describing a cached artifact.
#[derive(Debug)]
pub struct ArtifactMetadata {
    pub schema_version: u32,
    pub engine_profile_id: String,
    pub wasmtime_version: String,
    pub target_triple: String,
    pub cpu_policy: String,
    pub config_fingerprint: String,
    pub wasm_digest: String,
    pub artifact_bytes: u64,
    pub created_at: String,
    pub last_access_at: String,
    pub hit_count: u64,
}

/// Relies on chrono's Utc::now().to_rfc3339(): the wall clock, as an RFC 3339
/// timestamp. Nothing is assumed of the value.
#[verifier::external_body]
fn now_rfc3339() -> String {
    chrono::Utc::now().to_rfc3339()
}

/// Names the result of chrono's RFC 3339 parse: the Unix timestamp in
/// seconds, a function of the string alone; `None` where it does not parse.
pub uninterp spec fn rfc3339_timestamp_of(s: Seq<char>) -> Option<i64>;

/// Relies on chrono's DateTime::parse_from_rfc3339 and timestamp().
#[verifier::external_body]
fn parse_rfc3339_timestamp(s: &str) -> (r: Option<i64>)
    ensures
        r == rfc3339_timestamp_of(s@),
{
    chrono::DateTime::parse_from_rfc3339(s).ok().map(|dt| dt.timestamp())
}

/// Whether a metadata record was written under the given profile.
pub open spec fn meta_matches_profile(m: ArtifactMetadata, p: EngineProfile) -> bool {
    &&& m.schema_version == 1
    &&& m.engine_profile_id@ == p.engine_profile_id@
    &&& m.wasmtime_version@ == p.wasmtime_version@
    &&& m.target_triple@ == p.target_triple@
    &&& m.cpu_policy@ == policy_str(p.cpu_policy)
    &&& m.config_fingerprint@ == p.config_fingerprint@
}

/// The first mismatch a validation reports, if any.
pub open spec fn meta_mismatch(m: ArtifactMetadata, p: EngineProfile) -> Option<Seq<char>> {
    if m.schema_version != 1 {
        Some("cache metadata schema_version must be 1"@)
    } else if m.engine_profile_id@ != p.engine_profile_id@ {
        Some("cache metadata engine_profile_id mismatch"@)
    } else if m.wasmtime_version@ != p.wasmtime_version@ {
        Some("cache metadata wasmtime_version mismatch"@)
    } else if m.target_triple@ != p.target_triple@ {
        Some("cache metadata target_triple mismatch"@)
    } else if m.cpu_policy@ != policy_str(p.cpu_policy) {
        Some("cache metadata cpu_policy mismatch"@)
    } else if m.config_fingerprint@ != p.config_fingerprint@ {
        Some("cache metadata config_fingerprint mismatch"@)
    } else {
        None
    }
}

impl ArtifactMetadata {
    /// A fresh record for an artifact written under `profile`; both
    /// timestamps carry the same moment and the hit count starts at zero.
    pub fn new(profile: &EngineProfile, wasm_digest: String, artifact_bytes: u64) -> (r:
        ArtifactMetadata)
        ensures
            r.schema_version == 1,
            r.engine_profile_id@ == profile.engine_profile_id@,
            r.wasmtime_version@ == profile.wasmtime_version@,
            r.target_triple@ == profile.target_triple@,
            r.cpu_policy@ == policy_str(profile.cpu_policy),
            r.config_fingerprint@ == profile.config_fingerprint@,
            r.wasm_digest@ == wasm_digest@,
            r.artifact_bytes == artifact_bytes,
            r.created_at@ == r.last_access_at@,
            r.hit_count == 0,
            meta_matches_profile(r, *profile),
    {
        let ts = now_rfc3339();
        let ts2 = ts.clone();
        ArtifactMetadata {
            schema_version: 1,
            engine_profile_id: profile.engine_profile_id.clone(),
            wasmtime_version: profile.wasmtime_version.clone(),
            target_triple: profile.target_triple.clone(),
            cpu_policy: profile.cpu_policy.as_str().to_owned(),
            config_fingerprint: profile.config_fingerprint.clone(),
            wasm_digest,
            artifact_bytes,
            created_at: ts,
            last_access_at: ts2,
            hit_count: 0,
        }
    }

    /// Accepts exactly the records written under `profile`; the error names
    /// the first field that disagrees.
    pub fn validate_for_profile(&self, profile: &EngineProfile) -> (r: Result<(), String>)
        ensures
            r is Ok <==> meta_matches_profile(*self, *profile),
            r matches Err(e) ==> meta_mismatch(*self, *profile) == Some(e@),
    {
        if self.schema_version != 1 {
            return Err("cache metadata schema_version must be 1".to_owned());
        }
        if !str_eq(self.engine_profile_id.as_str(), profile.engine_profile_id.as_str()) {
            return Err("cache metadata engine_profile_id mismatch".to_owned());
        }
        if !str_eq(self.wasmtime_version.as_str(), profile.wasmtime_version.as_str()) {
            return Err("cache metadata wasmtime_version mismatch".to_owned());
        }
        if !str_eq(self.target_triple.as_str(), profile.target_triple.as_str()) {
            return Err("cache metadata target_triple mismatch".to_owned());
        }
        if !str_eq(self.cpu_policy.as_str(), profile.cpu_policy.as_str()) {
            return Err("cache metadata cpu_policy mismatch".to_owned());
        }
        if !str_eq(self.config_fingerprint.as_str(), profile.config_fingerprint.as_str()) {
            return Err("cache metadata config_fingerprint mismatch".to_owned());
        }
        Ok(())
    }

    /// The entry's effective access time: the last-access stamp, or the
    /// creation stamp where the former does not parse.
    pub fn last_access_time(&self) -> (r: Option<i64>)
        ensures
            r == (match rfc3339_timestamp_of(self.last_access_at@) {
                Some(t) => Some(t),
                None => rfc3339_timestamp_of(self.created_at@),
            }),
    {
        match parse_rfc3339_timestamp(self.last_access_at.as_str()) {
            Some(t) => Some(t),
            None => parse_rfc3339_timestamp(self.created_at.as_str()),
        }
    }

    /// Marks an access: bumps the hit count and refreshes the access stamp.
    pub fn touch(&mut self)
        ensures
            final(self).hit_count == if old(self).hit_count == u64::MAX {
                u64::MAX
            } else {
                (old(self).hit_count + 1) as u64
            },
            final(self).schema_version == old(self).schema_version,
            final(self).engine_profile_id == old(self).engine_profile_id,
            final(self).wasmtime_version == old(self).wasmtime_version,
            final(self).target_triple == old(self).target_triple,
            final(self).cpu_policy == old(self).cpu_policy,
            final(self).config_fingerprint == old(self).config_fingerprint,
            final(self).wasm_digest == old(self).wasm_digest,
            final(self).artifact_bytes == old(self).artifact_bytes,
            final(self).created_at == old(self).created_at,
    {
        self.last_access_at = now_rfc3339();
        self.hit_count = if self.hit_count == u64::MAX {
            u64::MAX
        } else {
            self.hit_count + 1
        };
    }
}

} // verus!
