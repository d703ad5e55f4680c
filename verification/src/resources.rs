//! Resource gates shared by independent post-processing jobs.
//!
//! The limits are deliberately expressed as worker counts. PAR2 work is the
//! CPU- and memory-heavy stage while extraction is primarily constrained by
//! disk throughput. Bounding each stage separately lets one job extract while
//! another repairs without allowing either workload to grow without bound.

use vstd::prelude::*;

verus! {

/// The most workers that a gate can admit (what `tokio::sync::Semaphore` can
/// hold).
pub open spec fn max_workers() -> usize {
    usize::MAX / 8
}

/// The larger of a worker count and one.
pub open spec fn at_least_one(n: usize) -> usize {
    if n == 0 {
        1
    } else {
        n
    }
}

/// Concurrent post-processing worker limits.
#[derive(Debug, Clone, Copy, PartialEq, Eq, Structural)]
pub struct PostProcLimits {
    /// Jobs admitted to the post-processing pipeline at once.
    pub pipelines: usize,
    /// Concurrent PAR2 verify/repair workers.
    pub repair: usize,
    /// Concurrent archive extraction workers.
    pub extract: usize,
}

impl Default for PostProcLimits {
    fn default() -> (limits: Self)
        ensures
            limits == (PostProcLimits { pipelines: 2, repair: 1, extract: 1 }),
    {
        PostProcLimits { pipelines: 2, repair: 1, extract: 1 }
    }
}

/// The larger of a worker count and one.
fn one_or_more(n: usize) -> (m: usize)
    ensures
        m == at_least_one(n),
{
    if n == 0 {
        1
    } else {
        n
    }
}

impl PostProcLimits {
    /// The limits with at least one worker each.
    pub open spec fn normal(self) -> PostProcLimits {
        PostProcLimits {
            pipelines: at_least_one(self.pipelines),
            repair: at_least_one(self.repair),
            extract: at_least_one(self.extract),
        }
    }

    /// The limit of a stage.
    pub open spec fn of(self, stage: WorkStage) -> usize {
        match stage {
            WorkStage::Pipeline => self.pipelines,
            WorkStage::Repair => self.repair,
            WorkStage::Extract => self.extract,
        }
    }

    /// The limits with at least one worker each.
    pub fn normalized(self) -> (limits: Self)
        ensures
            limits == self.normal(),
    {
        PostProcLimits {
            pipelines: one_or_more(self.pipelines),
            repair: one_or_more(self.repair),
            extract: one_or_more(self.extract),
        }
    }
}

/// A stage whose workers are counted.
#[derive(Debug, Clone, Copy, PartialEq, Eq, Structural)]
pub enum WorkStage {
    /// A job in the pipeline.
    Pipeline,
    /// A PAR2 verification or repair.
    Repair,
    /// An archive extraction.
    Extract,
}

/// Current and lifetime-high concurrent stage usage.
#[derive(Debug, Clone, Copy, PartialEq, Eq, Structural)]
pub struct PostProcResourceSnapshot {
    pub active_pipelines: usize,
    pub active_repairs: usize,
    pub active_extractions: usize,
    pub peak_pipelines: usize,
    pub peak_repairs: usize,
    pub peak_extractions: usize,
}

impl Default for PostProcResourceSnapshot {
    fn default() -> (snapshot: Self)
        ensures
            snapshot == (PostProcResourceSnapshot {
                active_pipelines: 0,
                active_repairs: 0,
                active_extractions: 0,
                peak_pipelines: 0,
                peak_repairs: 0,
                peak_extractions: 0,
            }),
    {
        PostProcResourceSnapshot {
            active_pipelines: 0,
            active_repairs: 0,
            active_extractions: 0,
            peak_pipelines: 0,
            peak_repairs: 0,
            peak_extractions: 0,
        }
    }
}

impl PostProcResourceSnapshot {
    /// How many workers of a stage are active.
    pub open spec fn active(self, stage: WorkStage) -> usize {
        match stage {
            WorkStage::Pipeline => self.active_pipelines,
            WorkStage::Repair => self.active_repairs,
            WorkStage::Extract => self.active_extractions,
        }
    }

    /// How many workers of a stage were ever active at once.
    pub open spec fn peak(self, stage: WorkStage) -> usize {
        match stage {
            WorkStage::Pipeline => self.peak_pipelines,
            WorkStage::Repair => self.peak_repairs,
            WorkStage::Extract => self.peak_extractions,
        }
    }
}

/// Something that happens to the workers of a stage.
pub enum PoolEvent {
    /// A worker asks, and gets a permit.
    Granted(WorkStage),
    /// A worker asks, and has to wait.
    Refused(WorkStage),
    /// A permit is given back.
    Released(WorkStage),
}

/// What happens when a worker asks: whether it gets a permit.
pub open spec fn asked(stage: WorkStage, granted: bool) -> PoolEvent {
    if granted {
        PoolEvent::Granted(stage)
    } else {
        PoolEvent::Refused(stage)
    }
}

/// The workers of one stage.
#[derive(Debug, Clone, Copy, PartialEq, Eq, Structural)]
pub struct Usage {
    /// How many are active.
    pub active: usize,
    /// How many were ever active at once.
    pub peak: usize,
}

impl Usage {
    /// The usage after one more worker has started.
    pub open spec fn after_acquire(self) -> Usage {
        let active = (self.active + 1) as usize;
        Usage { active, peak: if active > self.peak { active } else { self.peak } }
    }

    /// The usage after one worker has ended.
    pub open spec fn after_release(self) -> Usage {
        Usage { active: (self.active - 1) as usize, peak: self.peak }
    }

    /// The usage of a stage after something happened.
    pub open spec fn after(self, event: PoolEvent, stage: WorkStage) -> Usage {
        if event == PoolEvent::Granted(stage) {
            self.after_acquire()
        } else if event == PoolEvent::Released(stage) {
            self.after_release()
        } else {
            self
        }
    }

    /// Notes that one more worker has started.
    pub fn acquired(&mut self)
        requires
            old(self).active < usize::MAX,
        ensures
            *final(self) == old(self).after_acquire(),
    {
        self.active = self.active + 1;
        if self.active > self.peak {
            self.peak = self.active;
        }
    }

    /// Notes that one worker has ended.
    pub fn released(&mut self)
        requires
            old(self).active > 0,
        ensures
            *final(self) == old(self).after_release(),
    {
        self.active = self.active - 1;
    }
}

/// Whether a stage has room for one more worker.
pub open spec fn admits(usage: Usage, limit: usize) -> bool {
    usage.active < limit
}

/// The right to one worker of a stage, until it is given back.
#[derive(Debug)]
pub struct PostProcPermit {
    stage: WorkStage,
}

impl PostProcPermit {
    /// The stage that the permit is for.
    pub closed spec fn stage(&self) -> WorkStage {
        self.stage
    }
}

/// Shared stage-specific gates for the post-processing pipeline: how many
/// workers each stage may have, and how many it has and had.
#[derive(Debug)]
pub struct PostProcResourcePool {
    limits: PostProcLimits,
    pipeline_usage: Usage,
    repair_usage: Usage,
    extraction_usage: Usage,
}

impl PostProcResourcePool {
    /// The worker limits.
    pub closed spec fn worker_limits(&self) -> PostProcLimits {
        self.limits
    }

    /// The workers of a stage.
    pub closed spec fn usage(&self, stage: WorkStage) -> Usage {
        match stage {
            WorkStage::Pipeline => self.pipeline_usage,
            WorkStage::Repair => self.repair_usage,
            WorkStage::Extract => self.extraction_usage,
        }
    }

    /// Every stage may have a worker, and has and had no more than it may.
    pub open spec fn within_limits(&self) -> bool {
        forall|stage: WorkStage|
            {
                let usage = #[trigger] self.usage(stage);
                let limit = self.worker_limits().of(stage);
                &&& 1 <= limit <= max_workers()
                &&& usage.active <= usage.peak <= limit
            }
    }

    #[verifier::type_invariant]
    spec fn well_formed(self) -> bool {
        self.within_limits()
    }

    /// Gates with the given limits, at least one worker each, and no workers.
    pub fn new(limits: PostProcLimits) -> (pool: PostProcResourcePool)
        requires
            limits.pipelines <= max_workers(),
            limits.repair <= max_workers(),
            limits.extract <= max_workers(),
        ensures
            pool.within_limits(),
            pool.worker_limits() == limits.normal(),
            forall|stage: WorkStage| #[trigger]
                pool.usage(stage) == (Usage { active: 0, peak: 0 }),
    {
        let none: Usage = Usage { active: 0, peak: 0 };
        PostProcResourcePool {
            limits: limits.normalized(),
            pipeline_usage: none,
            repair_usage: none,
            extraction_usage: none,
        }
    }

    /// The worker limits.
    pub fn limits(&self) -> (limits: PostProcLimits)
        ensures
            limits == self.worker_limits(),
    {
        self.limits
    }

    /// Admits a worker to a stage, unless the stage has as many as it may: then
    /// nothing changes and the worker has to wait.
    fn acquire(&mut self, stage: WorkStage) -> (permit: Option<PostProcPermit>)
        ensures
            final(self).within_limits(),
            final(self).worker_limits() == old(self).worker_limits(),
            permit is Some <==> admits(old(self).usage(stage), old(self).worker_limits().of(stage)),
            permit matches Some(p) ==> p.stage() == stage,
            forall|s: WorkStage| #[trigger]
                final(self).usage(s) == old(self).usage(s).after(
                    asked(stage, permit is Some),
                    s,
                ),
    {
        proof {
            use_type_invariant(&*self);
            assert(self.within_limits());
            let usage = self.usage(stage);
            assert(usage.active <= usage.peak <= self.worker_limits().of(stage));
            assert(self.worker_limits().of(stage) <= max_workers());
        }
        let mut usage: Usage = match stage {
            WorkStage::Pipeline => self.pipeline_usage,
            WorkStage::Repair => self.repair_usage,
            WorkStage::Extract => self.extraction_usage,
        };
        let limit: usize = match stage {
            WorkStage::Pipeline => self.limits.pipelines,
            WorkStage::Repair => self.limits.repair,
            WorkStage::Extract => self.limits.extract,
        };
        if usage.active >= limit {
            return None;
        }
        usage.acquired();
        self.set_usage(stage, usage);
        Some(PostProcPermit { stage })
    }

    /// Replaces the workers of one stage.
    fn set_usage(&mut self, stage: WorkStage, usage: Usage)
        requires
            usage.active <= usage.peak <= old(self).worker_limits().of(stage),
        ensures
            final(self).within_limits(),
            final(self).worker_limits() == old(self).worker_limits(),
            forall|s: WorkStage| #[trigger]
                final(self).usage(s) == if s == stage {
                    usage
                } else {
                    old(self).usage(s)
                },
    {
        proof {
            use_type_invariant(&*self);
            assert(self.usage(stage).active <= self.usage(stage).peak);
            assert(self.usage(WorkStage::Pipeline) == self.pipeline_usage);
            assert(self.usage(WorkStage::Repair) == self.repair_usage);
            assert(self.usage(WorkStage::Extract) == self.extraction_usage);
        }
        match stage {
            WorkStage::Pipeline => {
                self.pipeline_usage = usage;
            },
            WorkStage::Repair => {
                self.repair_usage = usage;
            },
            WorkStage::Extract => {
                self.extraction_usage = usage;
            },
        }
    }

    /// Admits a job to the pipeline, unless it has to wait.
    pub fn acquire_pipeline(&mut self) -> (permit: Option<PostProcPermit>)
        ensures
            final(self).within_limits(),
            final(self).worker_limits() == old(self).worker_limits(),
            permit is Some <==> admits(
                old(self).usage(WorkStage::Pipeline),
                old(self).worker_limits().pipelines,
            ),
            permit matches Some(p) ==> p.stage() == WorkStage::Pipeline,
            forall|s: WorkStage| #[trigger]
                final(self).usage(s) == old(self).usage(s).after(
                    asked(WorkStage::Pipeline, permit is Some),
                    s,
                ),
    {
        self.acquire(WorkStage::Pipeline)
    }

    /// Admits a PAR2 worker, unless it has to wait.
    pub fn acquire_repair(&mut self) -> (permit: Option<PostProcPermit>)
        ensures
            final(self).within_limits(),
            final(self).worker_limits() == old(self).worker_limits(),
            permit is Some <==> admits(
                old(self).usage(WorkStage::Repair),
                old(self).worker_limits().repair,
            ),
            permit matches Some(p) ==> p.stage() == WorkStage::Repair,
            forall|s: WorkStage| #[trigger]
                final(self).usage(s) == old(self).usage(s).after(
                    asked(WorkStage::Repair, permit is Some),
                    s,
                ),
    {
        self.acquire(WorkStage::Repair)
    }

    /// Admits an extraction worker, unless it has to wait.
    pub fn acquire_extract(&mut self) -> (permit: Option<PostProcPermit>)
        ensures
            final(self).within_limits(),
            final(self).worker_limits() == old(self).worker_limits(),
            permit is Some <==> admits(
                old(self).usage(WorkStage::Extract),
                old(self).worker_limits().extract,
            ),
            permit matches Some(p) ==> p.stage() == WorkStage::Extract,
            forall|s: WorkStage| #[trigger]
                final(self).usage(s) == old(self).usage(s).after(
                    asked(WorkStage::Extract, permit is Some),
                    s,
                ),
    {
        self.acquire(WorkStage::Extract)
    }

    /// Takes a permit back.
    pub fn release(&mut self, permit: PostProcPermit)
        requires
            old(self).usage(permit.stage()).active > 0,
        ensures
            final(self).within_limits(),
            final(self).worker_limits() == old(self).worker_limits(),
            forall|s: WorkStage| #[trigger]
                final(self).usage(s) == old(self).usage(s).after(
                    PoolEvent::Released(permit.stage()),
                    s,
                ),
    {
        proof {
            use_type_invariant(&*self);
            assert(self.usage(permit.stage).active <= self.usage(permit.stage).peak);
        }
        let mut usage: Usage = match permit.stage {
            WorkStage::Pipeline => self.pipeline_usage,
            WorkStage::Repair => self.repair_usage,
            WorkStage::Extract => self.extraction_usage,
        };
        usage.released();
        self.set_usage(permit.stage, usage);
    }

    /// The workers of all stages.
    pub fn snapshot(&self) -> (snapshot: PostProcResourceSnapshot)
        ensures
            forall|s: WorkStage|
                {
                    &&& #[trigger] snapshot.active(s) == self.usage(s).active
                    &&& snapshot.peak(s) == self.usage(s).peak
                },
            snapshot.active_pipelines == self.usage(WorkStage::Pipeline).active,
            snapshot.active_repairs == self.usage(WorkStage::Repair).active,
            snapshot.active_extractions == self.usage(WorkStage::Extract).active,
            snapshot.peak_pipelines == self.usage(WorkStage::Pipeline).peak,
            snapshot.peak_repairs == self.usage(WorkStage::Repair).peak,
            snapshot.peak_extractions == self.usage(WorkStage::Extract).peak,
    {
        PostProcResourceSnapshot {
            active_pipelines: self.pipeline_usage.active,
            active_repairs: self.repair_usage.active,
            active_extractions: self.extraction_usage.active,
            peak_pipelines: self.pipeline_usage.peak,
            peak_repairs: self.repair_usage.peak,
            peak_extractions: self.extraction_usage.peak,
        }
    }
}

/// Normal limits admit a worker to every stage, and normalizing them again
/// changes nothing.
pub proof fn law_normal_limits_admit_a_worker(limits: PostProcLimits, stage: WorkStage)
    ensures
        limits.normal().of(stage) >= 1,
        limits.normal().normal() == limits.normal(),
        limits.of(stage) >= 1 ==> limits.normal().of(stage) == limits.of(stage),
        limits.of(stage) == 0 ==> limits.normal().of(stage) == 1,
        limits.of(WorkStage::Pipeline) == limits.pipelines,
        limits.of(WorkStage::Repair) == limits.repair,
        limits.of(WorkStage::Extract) == limits.extract,
{
}

/// A worker that starts and ends leaves as many active as there were, and
/// never lowers the peak.
pub proof fn law_release_undoes_acquire(usage: Usage)
    requires
        usage.active < usize::MAX,
        usage.active <= usage.peak,
    ensures
        usage.after_acquire().after_release().active == usage.active,
        usage.peak <= usage.after_acquire().peak,
        usage.after_acquire().after_release().peak == usage.after_acquire().peak,
{
}

/// When a worker of a full stage ends, there is room for exactly one that waits.
pub proof fn law_a_release_makes_room_for_one(usage: Usage, limit: usize)
    requires
        usage.active == limit,
        limit >= 1,
    ensures
        usage.after_release().active < limit,
        usage.after_release().after_acquire().active == limit,
{
}

// ---------------------------------------------------------------------------
// Many workers
// ---------------------------------------------------------------------------

/// How many permits of a stage are alive: granted and not given back.
pub open spec fn alive(events: Seq<PoolEvent>, stage: WorkStage) -> int
    decreases events.len(),
{
    if events.len() == 0 {
        0
    } else {
        alive(events.drop_last(), stage) + if events.last() == PoolEvent::Granted(stage) {
            1int
        } else if events.last() == PoolEvent::Released(stage) {
            -1int
        } else {
            0int
        }
    }
}

/// The usage of a stage of a new pool after a sequence of events.
pub open spec fn usage_after(events: Seq<PoolEvent>, stage: WorkStage) -> Usage
    decreases events.len(),
{
    if events.len() == 0 {
        Usage { active: 0, peak: 0 }
    } else {
        usage_after(events.drop_last(), stage).after(events.last(), stage)
    }
}

/// Whether the events can happen, in this order, to a new pool
/// with the given limits: a worker gets a permit if and only if its stage has
/// fewer workers than it may, and only a permit that is alive is given back.
pub open spec fn can_happen(limits: PostProcLimits, events: Seq<PoolEvent>) -> bool
    decreases events.len(),
{
    events.len() == 0 || {
        let earlier = events.drop_last();
        &&& can_happen(limits, earlier)
        &&& match events.last() {
            PoolEvent::Granted(stage) => admits(usage_after(earlier, stage), limits.of(stage)),
            PoolEvent::Refused(stage) => !admits(usage_after(earlier, stage), limits.of(stage)),
            PoolEvent::Released(stage) => alive(earlier, stage) > 0,
        }
    }
}

/// However workers come and go, the active count of a stage is the number of
/// its permits that are alive, and neither it nor the peak ever exceeds the
/// limit of the stage, which is at least one. So it is zero once all permits
/// have been given back.
pub proof fn law_active_counts_the_permits_alive(
    limits: PostProcLimits,
    events: Seq<PoolEvent>,
    stage: WorkStage,
)
    requires
        can_happen(limits.normal(), events),
    ensures
        usage_after(events, stage).active == alive(events, stage),
        0 <= alive(events, stage) <= usage_after(events, stage).peak,
        usage_after(events, stage).peak <= limits.normal().of(stage),
    decreases events.len(),
{
    if events.len() > 0 {
        law_active_counts_the_permits_alive(limits, events.drop_last(), stage);
    }
}

/// The peak of a stage is the largest number of its permits that were ever
/// alive at once.
pub proof fn law_the_peak_was_reached(
    limits: PostProcLimits,
    events: Seq<PoolEvent>,
    stage: WorkStage,
)
    requires
        can_happen(limits.normal(), events),
    ensures
        forall|n: int|
            0 <= n <= events.len() ==> #[trigger] alive(events.take(n), stage) <= usage_after(
                events,
                stage,
            ).peak,
        exists|n: int|
            0 <= n <= events.len() && #[trigger] alive(events.take(n), stage) == usage_after(
                events,
                stage,
            ).peak,
    decreases events.len(),
{
    let peak = usage_after(events, stage).peak;
    law_active_counts_the_permits_alive(limits, events, stage);
    assert(events.take(events.len() as int) =~= events);
    if events.len() > 0 {
        let earlier = events.drop_last();
        law_the_peak_was_reached(limits, earlier, stage);
        law_active_counts_the_permits_alive(limits, earlier, stage);
        assert forall|n: int| 0 <= n < events.len() implies #[trigger] events.take(n)
            == earlier.take(n) by {
            assert(events.take(n) =~= earlier.take(n));
        }
        assert forall|n: int| 0 <= n <= events.len() implies #[trigger] alive(
            events.take(n),
            stage,
        ) <= peak by {
            if n < events.len() {
                assert(events.take(n) == earlier.take(n));
            }
        }
        let n = choose|n: int|
            0 <= n <= earlier.len() && #[trigger] alive(earlier.take(n), stage) == usage_after(
                earlier,
                stage,
            ).peak;
        assert(events.take(n) == earlier.take(n));
        if peak != usage_after(earlier, stage).peak {
            assert(alive(events.take(events.len() as int), stage) == peak);
        } else {
            assert(alive(events.take(n), stage) == peak);
        }
    } else {
        assert(alive(events.take(0), stage) == peak);
    }
}

/// What an event changes: a permit that is granted counts one more worker of its
/// stage and raises the peak to it if there never were as many, one that is given
/// back counts one less; a worker that has to wait, and what happens at other
/// stages, changes nothing.
pub proof fn law_events_count_at_their_stage(usage: Usage, stage: WorkStage, other: WorkStage)
    requires
        usage.active < usize::MAX,
        other != stage,
    ensures
        usage.after(PoolEvent::Granted(stage), stage).active == usage.active + 1,
        usage.after(PoolEvent::Granted(stage), stage).peak >= usage.peak,
        usage.after(PoolEvent::Granted(stage), stage).peak >= usage.active + 1,
        usage.after(PoolEvent::Granted(stage), stage).peak == usage.peak || usage.after(
            PoolEvent::Granted(stage),
            stage,
        ).peak == usage.active + 1,
        usage.active > 0 ==> usage.after(PoolEvent::Released(stage), stage) == (Usage {
            active: (usage.active - 1) as usize,
            peak: usage.peak,
        }),
        usage.after(PoolEvent::Refused(stage), stage) == usage,
        usage.after(PoolEvent::Granted(other), stage) == usage,
        usage.after(PoolEvent::Released(other), stage) == usage,
        asked(stage, true) == PoolEvent::Granted(stage),
        asked(stage, false) == PoolEvent::Refused(stage),
{
}

/// A worker is let in exactly if its stage has fewer permits alive than it may have,
/// whatever happened before and at the other stages: no room is left unused, and
/// none is used twice.
pub proof fn law_there_is_room_up_to_the_limit(
    limits: PostProcLimits,
    events: Seq<PoolEvent>,
    stage: WorkStage,
)
    requires
        can_happen(limits.normal(), events),
    ensures
        can_happen(limits.normal(), events.push(PoolEvent::Granted(stage))) <==> alive(
            events,
            stage,
        ) < limits.normal().of(stage),
        can_happen(limits.normal(), events.push(PoolEvent::Refused(stage))) <==> alive(
            events,
            stage,
        ) == limits.normal().of(stage),
{
    law_active_counts_the_permits_alive(limits, events, stage);
    assert(events.push(PoolEvent::Granted(stage)).drop_last() =~= events);
    assert(events.push(PoolEvent::Refused(stage)).drop_last() =~= events);
}

} // verus!
