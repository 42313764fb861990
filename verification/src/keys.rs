use vstd::prelude::*;

use crate::strutil::str_eq;

verus! {

/// Cache key of a compiled artifact: engine profile id plus content digest.
/// Keys compare by value alone.
#[derive(Debug, PartialEq, Eq, Hash)]
pub struct ArtifactKey {
    pub engine_profile_id: String,
    pub wasm_digest: String,
}

impl ArtifactKey {
    pub fn new(engine_profile_id: String, wasm_digest: String) -> (r: ArtifactKey)
        ensures
            r.engine_profile_id@ == engine_profile_id@,
            r.wasm_digest@ == wasm_digest@,
    {
        ArtifactKey { engine_profile_id, wasm_digest }
    }

    /// Value equality of two keys.
    pub fn same_key(&self, other: &ArtifactKey) -> (r: bool)
        ensures
            r == (self.engine_profile_id@ == other.engine_profile_id@ && self.wasm_digest@
                == other.wasm_digest@),
    {
        str_eq(self.engine_profile_id.as_str(), other.engine_profile_id.as_str()) && str_eq(
            self.wasm_digest.as_str(),
            other.wasm_digest.as_str(),
        )
    }

    /// A field-for-field copy.
    pub fn dup(&self) -> (r: ArtifactKey)
        ensures
            r.engine_profile_id@ == self.engine_profile_id@,
            r.wasm_digest@ == self.wasm_digest@,
    {
        ArtifactKey {
            engine_profile_id: self.engine_profile_id.clone(),
            wasm_digest: self.wasm_digest.clone(),
        }
    }
}

} // verus!
