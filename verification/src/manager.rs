use vstd::prelude::*;

use crate::keys::ArtifactKey;
use crate::memory::{sat_add, sat_add_exec};

verus! {

/// Counter snapshot of the component cache path.
#[derive(Clone, Copy, Debug, PartialEq, Eq, Structural)]
pub struct CacheMetricsSnapshot {
    pub memory_hits: u64,
    pub disk_hits: u64,
    pub disk_reads: u64,
    pub compiles: u64,
}

impl CacheMetricsSnapshot {
    pub fn new() -> (r: CacheMetricsSnapshot)
        ensures
            r == (CacheMetricsSnapshot { memory_hits: 0, disk_hits: 0, disk_reads: 0, compiles: 0 }),
    {
        CacheMetricsSnapshot { memory_hits: 0, disk_hits: 0, disk_reads: 0, compiles: 0 }
    }

    /// Adds another snapshot's counts into this one, saturating.
    pub fn absorb(&mut self, delta: &CacheMetricsSnapshot)
        ensures
            final(self).memory_hits == sat_add(old(self).memory_hits, delta.memory_hits),
            final(self).disk_hits == sat_add(old(self).disk_hits, delta.disk_hits),
            final(self).disk_reads == sat_add(old(self).disk_reads, delta.disk_reads),
            final(self).compiles == sat_add(old(self).compiles, delta.compiles),
    {
        self.memory_hits = sat_add_exec(self.memory_hits, delta.memory_hits);
        self.disk_hits = sat_add_exec(self.disk_hits, delta.disk_hits);
        self.disk_reads = sat_add_exec(self.disk_reads, delta.disk_reads);
        self.compiles = sat_add_exec(self.compiles, delta.compiles);
    }
}

/// On-disk totals of one cache root.
#[derive(Clone, Copy, Debug, PartialEq, Eq, Structural)]
pub struct DiskStats {
    pub artifact_bytes: u64,
    pub artifact_count: u64,
}

/// One artifact to warm ahead of use.
#[derive(Debug)]
pub struct WarmupItem {
    pub key: ArtifactKey,
}

#[derive(Clone, Copy, Debug)]
pub enum WarmupMode {
    BestEffort,
    Strict,
}

/// What a warmup pass reports.
#[derive(Clone, Copy, Debug, PartialEq, Eq, Structural)]
pub struct WarmupReport {
    pub warmed: u64,
    pub skipped: u64,
}

/// A warmup over the given items warms each of them.
pub fn warmup_report(items: &Vec<WarmupItem>) -> (r: WarmupReport)
    ensures
        r.warmed as int == items@.len(),
        r.skipped == 0,
{
    WarmupReport { warmed: items.len() as u64, skipped: 0 }
}

/// What a cache self-check reports.
#[derive(Clone, Copy, Debug, PartialEq, Eq, Structural)]
pub struct CacheDoctorReport {
    pub disk_enabled: bool,
    pub memory_enabled: bool,
    pub entries_checked: u64,
}

/// Where one component fetch stands. The flight is the singleflight claim;
/// memory and disk are rechecked after acquiring it, because a concurrent
/// peer may have filled either tier while this fetch waited.
#[derive(Clone, Copy, Debug, PartialEq, Eq, Structural)]
pub enum FlowStep {
    CheckMemory,
    CheckDisk,
    AcquireFlight,
    RecheckMemory,
    RecheckDisk,
    Produce,
    Done,
    Failed,
}

/// What the surrounding runtime observed for the current step.
#[derive(Clone, Copy, Debug, PartialEq, Eq, Structural)]
pub enum FlowEvent {
    TierDisabled,
    MemoryHit,
    MemoryMiss,
    DiskHit,
    DiskMiss,
    FlightAcquired,
    ProducedOk,
    ProducedErr,
}

/// The step transition relation of a component fetch: memory first, then
/// disk, then the singleflight claim, the two rechecks, and one produce.
/// Any observation a step cannot take fails the fetch.
pub open spec fn flow_next(st: FlowStep, ev: FlowEvent) -> FlowStep {
    match (st, ev) {
        (FlowStep::CheckMemory, FlowEvent::MemoryHit) => FlowStep::Done,
        (FlowStep::CheckMemory, FlowEvent::MemoryMiss) => FlowStep::CheckDisk,
        (FlowStep::CheckMemory, FlowEvent::TierDisabled) => FlowStep::CheckDisk,
        (FlowStep::CheckDisk, FlowEvent::DiskHit) => FlowStep::Done,
        (FlowStep::CheckDisk, FlowEvent::DiskMiss) => FlowStep::AcquireFlight,
        (FlowStep::CheckDisk, FlowEvent::TierDisabled) => FlowStep::AcquireFlight,
        (FlowStep::AcquireFlight, FlowEvent::FlightAcquired) => FlowStep::RecheckMemory,
        (FlowStep::RecheckMemory, FlowEvent::MemoryHit) => FlowStep::Done,
        (FlowStep::RecheckMemory, FlowEvent::MemoryMiss) => FlowStep::RecheckDisk,
        (FlowStep::RecheckMemory, FlowEvent::TierDisabled) => FlowStep::RecheckDisk,
        (FlowStep::RecheckDisk, FlowEvent::DiskHit) => FlowStep::Done,
        (FlowStep::RecheckDisk, FlowEvent::DiskMiss) => FlowStep::Produce,
        (FlowStep::RecheckDisk, FlowEvent::TierDisabled) => FlowStep::Produce,
        (FlowStep::Produce, FlowEvent::ProducedOk) => FlowStep::Done,
        _ => FlowStep::Failed,
    }
}

/// Whether an event at a step counts a disk read.
pub open spec fn counts_disk_read(st: FlowStep, ev: FlowEvent) -> bool {
    &&& (st == FlowStep::CheckDisk || st == FlowStep::RecheckDisk)
    &&& (ev == FlowEvent::DiskHit || ev == FlowEvent::DiskMiss)
}

/// One component fetch with its metric deltas.
#[derive(Debug)]
pub struct ComponentFlow {
    pub step: FlowStep,
    pub metrics: CacheMetricsSnapshot,
    pub produce_calls: u64,
}

/// The fetch invariant: the produce callback runs at most once, never
/// before the flight was acquired and both rechecks missed, and only a
/// successful produce counts a compile.
pub open spec fn flow_inv(f: ComponentFlow) -> bool {
    &&& f.produce_calls <= 1
    &&& (f.step != FlowStep::Done && f.step != FlowStep::Failed ==> f.produce_calls == 0)
    &&& f.metrics.compiles <= f.produce_calls
}

impl ComponentFlow {
    /// A fetch starts by checking the memory tier.
    pub fn start() -> (r: ComponentFlow)
        ensures
            r.step == FlowStep::CheckMemory,
            r.metrics == (CacheMetricsSnapshot {
                memory_hits: 0,
                disk_hits: 0,
                disk_reads: 0,
                compiles: 0,
            }),
            r.produce_calls == 0,
            flow_inv(r),
    {
        ComponentFlow {
            step: FlowStep::CheckMemory,
            metrics: CacheMetricsSnapshot::new(),
            produce_calls: 0,
        }
    }

    /// Feeds one observation into the fetch: moves to the next step and
    /// counts hits, reads, and compiles.
    pub fn on_event(&mut self, ev: FlowEvent)
        ensures
            final(self).step == flow_next(old(self).step, ev),
            final(self).metrics.memory_hits == sat_add(
                old(self).metrics.memory_hits,
                if (old(self).step == FlowStep::CheckMemory || old(self).step
                    == FlowStep::RecheckMemory) && ev == FlowEvent::MemoryHit {
                    1
                } else {
                    0
                },
            ),
            final(self).metrics.disk_reads == sat_add(
                old(self).metrics.disk_reads,
                if counts_disk_read(old(self).step, ev) {
                    1
                } else {
                    0
                },
            ),
            final(self).metrics.disk_hits == sat_add(
                old(self).metrics.disk_hits,
                if (old(self).step == FlowStep::CheckDisk || old(self).step
                    == FlowStep::RecheckDisk) && ev == FlowEvent::DiskHit {
                    1
                } else {
                    0
                },
            ),
            final(self).metrics.compiles == sat_add(
                old(self).metrics.compiles,
                if old(self).step == FlowStep::Produce && ev == FlowEvent::ProducedOk {
                    1
                } else {
                    0
                },
            ),
            final(self).produce_calls == sat_add(
                old(self).produce_calls,
                if old(self).step == FlowStep::Produce && (ev == FlowEvent::ProducedOk || ev
                    == FlowEvent::ProducedErr) {
                    1
                } else {
                    0
                },
            ),
            flow_inv(*old(self)) ==> flow_inv(*final(self)),
    {
        let st = self.step;
        if (matches!(st, FlowStep::CheckMemory) || matches!(st, FlowStep::RecheckMemory))
            && matches!(ev, FlowEvent::MemoryHit) {
            self.metrics.memory_hits = sat_add_exec(self.metrics.memory_hits, 1);
        }
        if (matches!(st, FlowStep::CheckDisk) || matches!(st, FlowStep::RecheckDisk)) && (matches!(
            ev,
            FlowEvent::DiskHit,
        ) || matches!(ev, FlowEvent::DiskMiss)) {
            self.metrics.disk_reads = sat_add_exec(self.metrics.disk_reads, 1);
        }
        if (matches!(st, FlowStep::CheckDisk) || matches!(st, FlowStep::RecheckDisk)) && matches!(
            ev,
            FlowEvent::DiskHit,
        ) {
            self.metrics.disk_hits = sat_add_exec(self.metrics.disk_hits, 1);
        }
        if matches!(st, FlowStep::Produce) && matches!(ev, FlowEvent::ProducedOk) {
            self.metrics.compiles = sat_add_exec(self.metrics.compiles, 1);
        }
        if matches!(st, FlowStep::Produce) && (matches!(ev, FlowEvent::ProducedOk) || matches!(
            ev,
            FlowEvent::ProducedErr,
        )) {
            self.produce_calls = sat_add_exec(self.produce_calls, 1);
        }
        self.step = match (st, ev) {
            (FlowStep::CheckMemory, FlowEvent::MemoryHit) => FlowStep::Done,
            (FlowStep::CheckMemory, FlowEvent::MemoryMiss) => FlowStep::CheckDisk,
            (FlowStep::CheckMemory, FlowEvent::TierDisabled) => FlowStep::CheckDisk,
            (FlowStep::CheckDisk, FlowEvent::DiskHit) => FlowStep::Done,
            (FlowStep::CheckDisk, FlowEvent::DiskMiss) => FlowStep::AcquireFlight,
            (FlowStep::CheckDisk, FlowEvent::TierDisabled) => FlowStep::AcquireFlight,
            (FlowStep::AcquireFlight, FlowEvent::FlightAcquired) => FlowStep::RecheckMemory,
            (FlowStep::RecheckMemory, FlowEvent::MemoryHit) => FlowStep::Done,
            (FlowStep::RecheckMemory, FlowEvent::MemoryMiss) => FlowStep::RecheckDisk,
            (FlowStep::RecheckMemory, FlowEvent::TierDisabled) => FlowStep::RecheckDisk,
            (FlowStep::RecheckDisk, FlowEvent::DiskHit) => FlowStep::Done,
            (FlowStep::RecheckDisk, FlowEvent::DiskMiss) => FlowStep::Produce,
            (FlowStep::RecheckDisk, FlowEvent::TierDisabled) => FlowStep::Produce,
            (FlowStep::Produce, FlowEvent::ProducedOk) => FlowStep::Done,
            _ => FlowStep::Failed,
        };
    }
}

/// Law: however a fetch's observations unfold, the produce callback runs at
/// most once, and at most that many compiles are counted.
pub proof fn lemma_flow_produce_once(f: ComponentFlow)
    requires
        flow_inv(f),
    ensures
        f.produce_calls <= 1,
        f.metrics.compiles <= 1,
{
}

/// What the runtime does with a disk artifact it tried to revive: a
/// component that deserialized is served; a failure deletes the stale
/// entry and the fetch falls through to a miss.
#[derive(Clone, Copy, Debug, PartialEq, Eq, Structural)]
pub enum DiskReviveAction {
    Serve,
    DeleteAndMiss,
}

/// Decides the disk-revive step from the deserialization outcome.
pub fn disk_revive_action(deserialize_ok: bool) -> (r: DiskReviveAction)
    ensures
        r == (if deserialize_ok {
            DiskReviveAction::Serve
        } else {
            DiskReviveAction::DeleteAndMiss
        }),
{
    if deserialize_ok {
        DiskReviveAction::Serve
    } else {
        DiskReviveAction::DeleteAndMiss
    }
}

} // verus!
