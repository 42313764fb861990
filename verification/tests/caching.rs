use std::sync::Arc;

use greentic_runner::contract_cache::{ContractCache, ContractSnapshot};
use greentic_runner::disk::{DiskCache, PruneEntry, ReadDecision, SidecarState};
use greentic_runner::engine_profile::{compute_engine_profile_id, CpuPolicy, EngineProfile};
use greentic_runner::keys::ArtifactKey;
use greentic_runner::manager::{ComponentFlow, FlowEvent, FlowStep};
use greentic_runner::memory::MemoryCache;
use greentic_runner::metadata::ArtifactMetadata;

fn profile() -> EngineProfile {
    EngineProfile::from_parts(
        "99.0.0".to_string(),
        "x86_64-linux".to_string(),
        CpuPolicy::Native,
        "default".to_string(),
    )
}

fn key(digest: &str) -> ArtifactKey {
    ArtifactKey::new(profile().engine_profile_id.clone(), digest.to_string())
}

#[test]
fn engine_profile_id_is_stable() {
    let a = profile();
    let b = profile();
    assert_eq!(a.id(), b.id());
}

#[test]
fn engine_profile_id_is_stable_for_default_config() {
    let one = compute_engine_profile_id("99.0.0", "x86_64-linux", CpuPolicy::Native, "default");
    let two = compute_engine_profile_id("99.0.0", "x86_64-linux", CpuPolicy::Native, "default");
    assert_eq!(one, two);
    assert!(one.starts_with("sha256:"));
    assert_eq!(one.len(), "sha256:".len() + 64);
}

#[test]
fn lru_eviction_order() {
    let mut cache: MemoryCache<u32> = MemoryCache::new(10, 3);
    cache.insert(key("sha256:one"), Arc::new(1), 6, false);
    cache.insert(key("sha256:two"), Arc::new(2), 6, false);
    assert!(cache.get(&key("sha256:one")).is_none());
    assert!(cache.get(&key("sha256:two")).is_some());
}

#[test]
fn lfu_protect_keeps_hot_entries() {
    let mut cache: MemoryCache<u32> = MemoryCache::new(10, 3);
    cache.insert(key("sha256:hot"), Arc::new(1), 6, false);
    for _ in 0..3 {
        assert!(cache.get(&key("sha256:hot")).is_some());
    }
    cache.insert(key("sha256:cold"), Arc::new(2), 6, false);
    cache.insert(key("sha256:new"), Arc::new(3), 6, false);
    assert!(cache.get(&key("sha256:hot")).is_some());
}

#[test]
fn pinned_entries_survive_eviction() {
    let mut cache: MemoryCache<u32> = MemoryCache::new(10, 3);
    cache.insert(key("sha256:pinned"), Arc::new(1), 8, true);
    cache.insert(key("sha256:other"), Arc::new(2), 8, false);
    assert!(cache.get(&key("sha256:pinned")).is_some());
}

#[test]
fn stats_track_hits_and_bytes() {
    let mut cache: MemoryCache<u32> = MemoryCache::new(20, 3);
    cache.insert(key("sha256:one"), Arc::new(1), 5, false);
    assert!(cache.get(&key("sha256:one")).is_some());
    assert!(cache.get(&key("sha256:missing")).is_none());
    let stats = cache.stats();
    assert_eq!(stats.hits, 1);
    assert_eq!(stats.misses, 1);
    assert_eq!(stats.total_bytes, 5);
    assert_eq!(stats.entries, 1);
}

#[test]
fn memory_cache_stays_within_budget() {
    let mut cache: MemoryCache<u32> = MemoryCache::new(10, 3);
    for (i, name) in ["a", "b", "c", "d", "e"].iter().enumerate() {
        let digest = format!("sha256:{name}");
        cache.insert(key(&digest), Arc::new(i as u32), 4, false);
        assert!(cache.stats().total_bytes <= 10);
    }
}

#[test]
fn cache_tracks_hits_and_lru_eviction() {
    let mut cache = ContractCache::new(256);
    let key_a = "sha256:a::component.alpha::run".to_string();
    let key_b = "sha256:b::component.beta::run".to_string();

    cache.insert(
        key_a.clone(),
        Arc::new(ContractSnapshot::new(
            "sha256:a".to_string(),
            "component.alpha".to_string(),
            "run".to_string(),
            true,
            true,
        )),
    );
    assert!(cache.get(&key_a).is_some());
    cache.insert(
        key_b.clone(),
        Arc::new(ContractSnapshot::new(
            "sha256:b".to_string(),
            "component.beta".to_string(),
            "run".to_string(),
            true,
            true,
        )),
    );
    let stats = cache.stats();
    assert!(stats.hits >= 1);
    assert!(stats.entries >= 1);
    assert!(cache.get(&key_b).is_some());
}

#[test]
fn contract_cache_counts_cold_then_warm() {
    let mut cache = ContractCache::new(256 * 1024 * 1024);
    let k = "sha256:abc::component.demo::echo::validate_output=true::strict=true".to_string();
    assert!(cache.get(&k).is_none());
    cache.insert(
        k.clone(),
        Arc::new(ContractSnapshot::new(
            "sha256:abc".to_string(),
            "component.demo".to_string(),
            "echo".to_string(),
            true,
            true,
        )),
    );
    let cold = cache.stats();
    assert_eq!((cold.entries, cold.misses, cold.hits), (1, 1, 0));
    assert!(cache.get(&k).is_some());
    let warm = cache.stats();
    assert_eq!((warm.entries, warm.misses, warm.hits), (1, 1, 1));
}

fn meta_for(profile: &EngineProfile, digest: &str, bytes: u64) -> ArtifactMetadata {
    ArtifactMetadata::new(profile, digest.to_string(), bytes)
}

#[test]
fn disk_read_hit_requires_consistent_metadata() {
    let p = profile();
    let cache = DiskCache::new("/tmp/cache-root".to_string(), p, Some(15));
    let k = key("sha256:abcd");
    let meta = meta_for(&cache.profile, "sha256:abcd", 5);
    let decision = cache.evaluate_read(&k, &SidecarState::Parsed(meta), Some(5));
    assert_eq!(decision, ReadDecision::Hit);
}

#[test]
fn disk_read_mismatch_deletes_entry() {
    let p = profile();
    let cache = DiskCache::new("/tmp/cache-root".to_string(), p, Some(15));
    let k = key("sha256:abcd");
    // digest mismatch
    let meta = meta_for(&cache.profile, "sha256:other", 5);
    let decision = cache.evaluate_read(&k, &SidecarState::Parsed(meta), Some(5));
    assert_eq!(
        decision,
        ReadDecision::Miss { delete_artifact: true, delete_meta: true }
    );
    // size mismatch
    let meta = meta_for(&cache.profile, "sha256:abcd", 5);
    let decision = cache.evaluate_read(&k, &SidecarState::Parsed(meta), Some(7));
    assert_eq!(
        decision,
        ReadDecision::Miss { delete_artifact: true, delete_meta: true }
    );
    // unreadable sidecar
    let decision = cache.evaluate_read(&k, &SidecarState::Unreadable, Some(5));
    assert_eq!(
        decision,
        ReadDecision::Miss { delete_artifact: true, delete_meta: true }
    );
}

#[test]
fn prune_removes_oldest_entries() {
    let p = profile();
    let cache = DiskCache::new("/tmp/cache-root".to_string(), p, Some(15));
    let entries = vec![
        PruneEntry {
            artifact_path: "one.cwasm".to_string(),
            meta_path: "one.json".to_string(),
            size: 5,
            access: Some(100),
        },
        PruneEntry {
            artifact_path: "two.cwasm".to_string(),
            meta_path: "two.json".to_string(),
            size: 6,
            access: Some(200),
        },
        PruneEntry {
            artifact_path: "three.cwasm".to_string(),
            meta_path: "three.json".to_string(),
            size: 7,
            access: Some(300),
        },
    ];
    let (removed, report) = cache.plan_prune(entries);
    assert_eq!(report.removed_entries, 1);
    assert_eq!(report.removed_bytes, 5);
    assert_eq!(removed.len(), 1);
    assert_eq!(removed[0].artifact_path, "one.cwasm");
}

#[test]
fn prune_without_limit_removes_nothing() {
    let p = profile();
    let cache = DiskCache::new("/tmp/cache-root".to_string(), p, None);
    let entries = vec![PruneEntry {
        artifact_path: "one.cwasm".to_string(),
        meta_path: "one.json".to_string(),
        size: 50,
        access: None,
    }];
    let (removed, report) = cache.plan_prune(entries);
    assert!(removed.is_empty());
    assert_eq!(report.removed_entries, 0);
}

#[test]
fn metadata_validates_only_for_its_profile() {
    let p = profile();
    let meta = meta_for(&p, "sha256:abcd", 5);
    assert!(meta.validate_for_profile(&p).is_ok());
    let other = EngineProfile::from_parts(
        "99.0.1".to_string(),
        "x86_64-linux".to_string(),
        CpuPolicy::Native,
        "default".to_string(),
    );
    assert!(meta.validate_for_profile(&other).is_err());
}

#[test]
fn component_flow_compiles_once_when_cold() {
    let mut flow = ComponentFlow::start();
    let mut produce_runs = 0u64;
    flow.on_event(FlowEvent::MemoryMiss);
    flow.on_event(FlowEvent::DiskMiss);
    flow.on_event(FlowEvent::FlightAcquired);
    flow.on_event(FlowEvent::MemoryMiss);
    flow.on_event(FlowEvent::DiskMiss);
    assert_eq!(flow.step, FlowStep::Produce);
    produce_runs += 1;
    flow.on_event(FlowEvent::ProducedOk);
    assert_eq!(flow.step, FlowStep::Done);
    assert_eq!(produce_runs, 1);
    assert_eq!(flow.metrics.compiles, 1);
    assert_eq!(flow.metrics.disk_reads, 2);
    assert_eq!(flow.metrics.memory_hits, 0);
}

#[test]
fn component_flow_memory_hit_skips_everything() {
    let mut flow = ComponentFlow::start();
    flow.on_event(FlowEvent::MemoryHit);
    assert_eq!(flow.step, FlowStep::Done);
    assert_eq!(flow.metrics.memory_hits, 1);
    assert_eq!(flow.metrics.compiles, 0);
    assert_eq!(flow.metrics.disk_reads, 0);
}

#[test]
fn component_flow_disk_hit_skips_compile() {
    let mut flow = ComponentFlow::start();
    flow.on_event(FlowEvent::MemoryMiss);
    flow.on_event(FlowEvent::DiskHit);
    assert_eq!(flow.step, FlowStep::Done);
    assert_eq!(flow.metrics.disk_hits, 1);
    assert_eq!(flow.metrics.compiles, 0);
}
