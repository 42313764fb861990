use vstd::prelude::*;

verus! {

/// Cache layout and budget settings, resolved at boot.
#[derive(Debug)]
pub struct CacheConfig {
    pub root: String,
    pub disk_enabled: bool,
    pub memory_enabled: bool,
    pub disk_max_bytes: Option<u64>,
    pub memory_max_bytes: u64,
    pub lfu_protect_hits: u64,
}

impl CacheConfig {
    /// The on-disk root for one engine profile: `<root>/v1/<profile id>`.
    pub fn disk_root(&self, engine_profile_id: &str) -> (r: String)
        ensures
            r@ == self.root@ + "/v1/"@ + engine_profile_id@,
    {
        let mut out = self.root.clone();
        out.append("/v1/");
        out.append(engine_profile_id);
        out
    }
}

} // verus!
