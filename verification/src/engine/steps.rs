//! What the engine loop does next.
use super::eviction::{self, Victim};
use super::scheduler::{self, Scheduler, SchedulerOutput};
use super::state::InferenceEngine;
use crate::stats::{Counter, EngineStats};
use vstd::prelude::*;

verus! {

/// How to run a scheduled batch.
#[derive(Debug)]
pub enum StepKind {
    Prefill { id: u64 },
    DecodeBatch { batch: Vec<u64> },
    DecodeSequential { batch: Vec<u64> },
}

/// When and how long to wait for more requests.
#[derive(Debug, Clone, Copy, PartialEq, Eq, Structural)]
pub struct WaitBatch {
    /// Queued sequences that end the wait.
    pub target: usize,
    pub wait_us: u64,
    pub poll_us: u64,
}

/// What to do while waiting for more requests.
#[derive(Debug, Clone, Copy, PartialEq, Eq, Structural)]
pub enum WaitBatchNext {
    TargetHit,
    TimedOut,
    Sleep { us: u64 },
}

/// What to do while idle: trim device memory or not, then sleep.
#[derive(Debug, Clone, Copy, PartialEq, Eq, Structural)]
pub struct IdleStep {
    pub trim_now: bool,
    pub sleep_us: u64,
}

/// Steps between two reports.
pub const STEPS_PER_REPORT: u64 = 50;

/// Longest sleep between two looks at the queue while idle.
pub const IDLE_POLL_US: u64 = 20_000;

/// Shortest sleep while idle.
pub const IDLE_MIN_SLEEP_US: u64 = 1_000;

/// The idle time after which memory is trimmed is over.
pub open spec fn trim_due(trim_after_secs: Option<u64>, elapsed_us: u64) -> bool {
    match trim_after_secs {
        Some(secs) => elapsed_us >= secs * 1_000_000,
        None => false,
    }
}

/// Sleep while idle: up to the next trim, but no longer than a poll and no shorter than the
/// least.
pub open spec fn idle_sleep(trim_after_secs: Option<u64>, trimmed: bool, elapsed_us: u64) -> int {
    match trim_after_secs {
        Some(secs) => if trimmed || secs * 1_000_000 - elapsed_us >= IDLE_POLL_US {
            IDLE_POLL_US as int
        } else if secs * 1_000_000 - elapsed_us <= IDLE_MIN_SLEEP_US {
            IDLE_MIN_SLEEP_US as int
        } else {
            secs * 1_000_000 - elapsed_us
        },
        None => IDLE_POLL_US as int,
    }
}

/// Decides what to do after `elapsed_us` microseconds of idleness, of which memory was trimmed
/// already or not.
pub fn idle_step(trim_after_secs: Option<u64>, trim_done: bool, elapsed_us: u64) -> (result:
    IdleStep)
    ensures
        result.trim_now == (!trim_done && trim_due(trim_after_secs, elapsed_us)),
        result.sleep_us == idle_sleep(trim_after_secs, trim_done || result.trim_now, elapsed_us),
{
    match trim_after_secs {
        None => IdleStep { trim_now: false, sleep_us: IDLE_POLL_US },
        Some(secs) => {
            let due: u128 = (secs as u128) * 1_000_000;
            let now: u128 = elapsed_us as u128;
            let trim_now = !trim_done && now >= due;
            if trim_done || trim_now {
                return IdleStep { trim_now, sleep_us: IDLE_POLL_US };
            }
            let left: u128 = due - now;
            let sleep_us: u64 = if left >= IDLE_POLL_US as u128 {
                IDLE_POLL_US
            } else if left <= IDLE_MIN_SLEEP_US as u128 {
                IDLE_MIN_SLEEP_US
            } else {
                left as u64
            };
            IdleStep { trim_now, sleep_us }
        },
    }
}

/// How to go on waiting for more requests: until the target is met or the time is over.
pub open spec fn wait_next(wait: WaitBatch, queued: usize, elapsed_us: u64) -> WaitBatchNext {
    if queued >= wait.target {
        WaitBatchNext::TargetHit
    } else if elapsed_us >= wait.wait_us {
        WaitBatchNext::TimedOut
    } else if wait.wait_us - elapsed_us < wait.poll_us {
        WaitBatchNext::Sleep { us: (wait.wait_us - elapsed_us) as u64 }
    } else {
        WaitBatchNext::Sleep { us: wait.poll_us }
    }
}

/// Decides how to go on waiting for more requests, with `queued` sequences after `elapsed_us`
/// microseconds.
pub fn wait_batch_next(wait: &WaitBatch, queued: usize, elapsed_us: u64) -> (result: WaitBatchNext)
    ensures
        result == wait_next(*wait, queued, elapsed_us),
{
    if queued >= wait.target {
        return WaitBatchNext::TargetHit;
    }
    if elapsed_us >= wait.wait_us {
        return WaitBatchNext::TimedOut;
    }
    let remaining: u64 = wait.wait_us - elapsed_us;
    if remaining < wait.poll_us {
        WaitBatchNext::Sleep { us: remaining }
    } else {
        WaitBatchNext::Sleep { us: wait.poll_us }
    }
}

/// The batch of a scheduled prefill is one sequence that is there and in no queue.
pub open spec fn can_start(engine: InferenceEngine, output: SchedulerOutput) -> bool {
    output.is_prefill ==> {
        &&& output.batch@.len() == 1
        &&& engine.has(output.batch@[0])
        &&& !engine.scheduler.holds(output.batch@[0])
    }
}

/// `engine` with this scheduler, as at the start of a step.
pub open spec fn step_begun(before: InferenceEngine, scheduler: Scheduler) -> InferenceEngine {
    InferenceEngine {
        scheduler,
        eviction_cooldown: if before.eviction_cooldown > 0 {
            (before.eviction_cooldown - 1) as u32
        } else {
            0
        },
        stats: EngineStats {
            active_sequences: Counter { value: before.scheduler.running@.len() as u64 },
            waiting_sequences: Counter { value: before.scheduler.waiting@.len() as u64 },
            tracked_kv_cache_bytes: Counter { value: before.tracked_kv_bytes },
            ..before.stats
        },
        ..before
    }
}

/// Leaving the queues alone, but for a sequence that leaves them, keeps the books in order.
proof fn lemma_fewer_queued_keeps_wf(before: InferenceEngine, after: InferenceEngine)
    requires
        before.wf(),
        after.sequences == before.sequences,
        after.scheduler.wf(),
        forall|id: u64| #[trigger] after.scheduler.holds(id) ==> before.has(id),
        forall|id: u64| #[trigger]
            after.scheduler.running@.contains(id) ==> before.scheduler.running@.contains(id),
        after.active == before.active,
        after.paged_kv_allocator == before.paged_kv_allocator,
        after.graphs == before.graphs,
        after.paged_kv_gpu_store == before.paged_kv_gpu_store,
        after.pending_batched_kv_extract == before.pending_batched_kv_extract,
        after.settings == before.settings,
    ensures
        after.wf(),
{
    assert forall|id: u64| #[trigger] after.scheduler.holds(id) implies after.has(id) by {
        assert(before.has(id));
    }
    assert forall|id: u64| #[trigger] after.scheduler.running@.contains(id) implies after.sequence(
        id,
    ).generated() >= 1 by {
        assert(before.scheduler.running@.contains(id));
        assert(before.sequence(id).generated() >= 1);
    }
}

impl InferenceEngine {
    /// Starts a step: counts, and asks the scheduler what to run. `None` where nothing is
    /// queued.
    pub fn begin_step(&mut self) -> (result: Option<SchedulerOutput>)
        requires
            old(self).wf(),
        ensures
            final(self).wf(),
            *final(self) == step_begun(*old(self), final(self).scheduler),
            final(self).scheduler.max_running == old(self).scheduler.max_running,
            final(self).scheduler.effective_max_running == old(
                self,
            ).scheduler.effective_max_running,
            final(self).scheduler.running@ == old(self).scheduler.running@,
            match result {
                Some(output) => {
                    &&& can_start(*final(self), output)
                    &&& output.is_prefill == old(self).scheduler.admits()
                    &&& if output.is_prefill {
                        &&& output.batch@ == seq![old(self).scheduler.waiting@[0]]
                        &&& final(self).scheduler.waiting@ == old(self).scheduler.waiting@.skip(1)
                    } else {
                        &&& output.batch@ == old(self).scheduler.running@
                        &&& final(self).scheduler.waiting@ == old(self).scheduler.waiting@
                    }
                },
                None => {
                    &&& old(self).scheduler.waiting@.len() == 0
                    &&& old(self).scheduler.running@.len() == 0
                    &&& final(self).scheduler.waiting@ == old(self).scheduler.waiting@
                },
            },
    {
        let ghost before = *self;
        self.eviction_cooldown = self.eviction_cooldown.saturating_sub(1);
        self.stats.active_sequences.store(self.scheduler.running.len() as u64);
        self.stats.waiting_sequences.store(self.scheduler.waiting.len() as u64);
        self.stats.tracked_kv_cache_bytes.store(self.tracked_kv_bytes);
        let output = self.scheduler.schedule();
        proof {
            assert forall|id: u64| #[trigger] self.scheduler.holds(id) implies before.has(id) by {
                if self.scheduler.waiting@.contains(id) {
                    let k = self.scheduler.waiting@.index_of(id);
                    if before.scheduler.admits() {
                        assert(before.scheduler.waiting@[k + 1] == id);
                    }
                    assert(before.scheduler.waiting@.contains(id));
                }
                assert(before.scheduler.holds(id));
            }
            lemma_fewer_queued_keeps_wf(before, *self);
            if before.scheduler.admits() {
                let first = before.scheduler.waiting@[0];
                assert(before.scheduler.waiting@.contains(first));
                assert(before.scheduler.holds(first));
                assert(before.has(first));
            }
        }
        output
    }

    /// New prefills have to wait for memory, with `gpu_used` bytes of the device in use.
    pub open spec fn over_kv_budget(&self, gpu_used: u64) -> bool {
        self.memory_config.over_budget(
            self.settings.gpu_mem_hard_check_disabled,
            self.tracked_kv_bytes,
            self.eviction_cooldown,
            gpu_used,
        )
    }

    pub fn is_over_kv_budget(&self, gpu_used: u64) -> (result: bool)
        ensures
            result == self.over_kv_budget(gpu_used),
    {
        self.memory_config.is_over_kv_budget(
            self.settings.gpu_mem_hard_check_disabled,
            self.tracked_kv_bytes,
            self.eviction_cooldown,
            gpu_used,
        )
    }

    /// The batch is a prefill, and there is no memory for it.
    pub open spec fn prefill_blocked(&self, output: SchedulerOutput, gpu_used: u64) -> bool {
        output.is_prefill && self.over_kv_budget(gpu_used)
    }

    /// Makes room for a prefill that is over the memory budget: running sequences are sent back,
    /// and where that is not enough and something still runs, the prefill is put back in front
    /// of those that wait and the running sequences decode instead.
    pub fn make_room(&mut self, output: SchedulerOutput, gpu_used: u64) -> (result: (
        SchedulerOutput,
        Vec<Victim>,
    ))
        requires
            old(self).wf(),
            can_start(*old(self), output),
        ensures
            final(self).wf(),
            can_start(*final(self), result.0),
            !old(self).prefill_blocked(output, gpu_used) ==> {
                &&& result.0 == output
                &&& result.1@.len() == 0
                &&& *final(self) == *old(self)
            },
            old(self).prefill_blocked(output, gpu_used) ==> made_room(
                *old(self),
                *final(self),
                output,
                result.0,
                result.1@,
            ),
    {
        let ghost before = *self;
        if !output.is_prefill || !self.is_over_kv_budget(gpu_used) {
            return (output, Vec::new());
        }
        let victims = self.evict_if_needed();
        let ghost evicted = *self;
        proof {
            assert(before.has(output.batch@[0]));
            assert(evicted.has(output.batch@[0]));
            assert(!evicted.scheduler.holds(output.batch@[0]));
            assert(eviction::evicted_all(
                before,
                evicted,
                victims@,
                before.memory_config.kv_budget(),
            ));
        }
        if self.is_over_kv_budget(0) && self.scheduler.running.len() > 0 {
            let id: u64 = output.batch[0];
            self.scheduler.defer(id);
            let batch = scheduler::copy_ids(&self.scheduler.running);
            proof {
                assert forall|other: u64| #[trigger] self.scheduler.holds(
                    other,
                ) implies evicted.has(other) by {
                    if self.scheduler.waiting@.contains(other) {
                        let k = self.scheduler.waiting@.index_of(other);
                        if k > 0 {
                            assert(evicted.scheduler.waiting@[k - 1] == other);
                            assert(evicted.scheduler.waiting@.contains(other));
                            assert(evicted.scheduler.holds(other));
                        }
                    } else {
                        assert(evicted.scheduler.holds(other));
                    }
                }
                lemma_fewer_queued_keeps_wf(evicted, *self);
                assert(made_room(
                    before,
                    *self,
                    output,
                    SchedulerOutput { batch, is_prefill: false },
                    victims@,
                ));
            }
            return (SchedulerOutput { batch, is_prefill: false }, victims);
        }
        (output, victims)
    }

    /// How to run a batch: several sequences together where the model can do that.
    pub fn dispatch(&self, output: SchedulerOutput) -> (result: StepKind)
        requires
            output.is_prefill ==> output.batch@.len() == 1,
        ensures
            match result {
                StepKind::Prefill { id } => output.is_prefill && id == output.batch@[0],
                StepKind::DecodeBatch { batch } => {
                    &&& !output.is_prefill
                    &&& self.settings.supports_batch_decode && output.batch@.len() > 1
                    &&& batch == output.batch
                },
                StepKind::DecodeSequential { batch } => {
                    &&& !output.is_prefill
                    &&& !(self.settings.supports_batch_decode && output.batch@.len() > 1)
                    &&& batch == output.batch
                },
            },
    {
        if output.is_prefill {
            StepKind::Prefill { id: output.batch[0] }
        } else if self.settings.supports_batch_decode && output.batch.len() > 1 {
            StepKind::DecodeBatch { batch: output.batch }
        } else {
            StepKind::DecodeSequential { batch: output.batch }
        }
    }

    /// Ends a step. The result says whether a report is due.
    pub fn end_step(&mut self) -> (result: bool)
        requires
            old(self).step_counter < u64::MAX,
        ensures
            *final(self) == (InferenceEngine {
                step_counter: (old(self).step_counter + 1) as u64,
                ..*old(self)
            }),
            result == ((old(self).step_counter + 1) % STEPS_PER_REPORT as int == 0),
            old(self).wf() ==> final(self).wf(),
    {
        self.step_counter = self.step_counter + 1;
        self.step_counter % STEPS_PER_REPORT == 0
    }

    /// Whether to wait for more requests: the wait is switched on, something runs, and fewer
    /// sequences are queued than the target.
    pub fn wait_batch(&self) -> (result: Option<WaitBatch>)
        ensures
            ({
                let target = if self.settings.sched_wait_batch_target > 1 {
                    self.settings.sched_wait_batch_target
                } else {
                    1
                };
                let queued = self.scheduler.running@.len() + self.scheduler.waiting@.len();
                result == if self.settings.sched_wait_batch_us > 0 && self.scheduler.running@.len()
                    > 0 && queued < target {
                    Some(
                        WaitBatch {
                            target,
                            wait_us: self.settings.sched_wait_batch_us,
                            poll_us: if self.settings.sched_wait_batch_poll_us > 1 {
                                self.settings.sched_wait_batch_poll_us
                            } else {
                                1
                            },
                        },
                    )
                } else {
                    None
                }
            }),
    {
        let wait_us: u64 = self.settings.sched_wait_batch_us;
        if wait_us == 0 {
            return None;
        }
        let running: usize = self.scheduler.running.len();
        if running == 0 {
            return None;
        }
        let target: usize = if self.settings.sched_wait_batch_target > 1 {
            self.settings.sched_wait_batch_target
        } else {
            1
        };
        if self.queued() >= target as u128 {
            return None;
        }
        let poll_us: u64 = if self.settings.sched_wait_batch_poll_us > 1 {
            self.settings.sched_wait_batch_poll_us
        } else {
            1
        };
        Some(WaitBatch { target, wait_us, poll_us })
    }

    /// Sequences that wait or run.
    pub fn queued(&self) -> (result: u128)
        ensures
            result == self.scheduler.running@.len() + self.scheduler.waiting@.len(),
    {
        (self.scheduler.running.len() as u128) + (self.scheduler.waiting.len() as u128)
    }

    /// Counts a wait for more requests.
    pub fn record_wait_batch(&mut self, arrivals: u64, elapsed_us: u64, hit_target: bool)
        ensures
            *final(self) == (InferenceEngine {
                stats: EngineStats {
                    total_sched_wait_calls: old(self).stats.total_sched_wait_calls.plus(1),
                    total_sched_wait_arrivals: old(self).stats.total_sched_wait_arrivals.plus(
                        arrivals as int,
                    ),
                    total_sched_wait_time_us: old(self).stats.total_sched_wait_time_us.plus(
                        elapsed_us as int,
                    ),
                    total_sched_wait_target_hits: if hit_target {
                        old(self).stats.total_sched_wait_target_hits.plus(1)
                    } else {
                        old(self).stats.total_sched_wait_target_hits
                    },
                    ..old(self).stats
                },
                ..*old(self)
            }),
            old(self).wf() ==> final(self).wf(),
    {
        self.stats.total_sched_wait_calls.fetch_add(1);
        self.stats.total_sched_wait_arrivals.fetch_add(arrivals);
        self.stats.total_sched_wait_time_us.fetch_add(elapsed_us);
        if hit_target {
            self.stats.total_sched_wait_target_hits.fetch_add(1);
        }
    }

    /// Takes note of the device's memory use.
    pub fn record_gpu_memory(&mut self, used: u64, total: u64)
        ensures
            *final(self) == (InferenceEngine {
                stats: EngineStats {
                    tracked_kv_cache_bytes: Counter { value: old(self).tracked_kv_bytes },
                    gpu_memory_used_bytes: Counter { value: used },
                    gpu_memory_total_bytes: Counter { value: total },
                    ..old(self).stats
                },
                ..*old(self)
            }),
            old(self).wf() ==> final(self).wf(),
    {
        self.stats.tracked_kv_cache_bytes.store(self.tracked_kv_bytes);
        self.stats.gpu_memory_used_bytes.store(used);
        self.stats.gpu_memory_total_bytes.store(total);
    }
}

/// `after` is `before` with room made for a prefill: sequences were sent back, and the prefill
/// goes on or, where memory is still short and something runs, waits again while that decodes.
pub open spec fn made_room(
    before: InferenceEngine,
    after: InferenceEngine,
    output: SchedulerOutput,
    chosen: SchedulerOutput,
    victims: Seq<Victim>,
) -> bool {
    exists|evicted: InferenceEngine|
        {
            &&& #[trigger] eviction::evicted_all(
                before,
                evicted,
                victims,
                before.memory_config.kv_budget(),
            )
            &&& if evicted.over_kv_budget(0) && evicted.scheduler.running@.len() > 0 {
                &&& !chosen.is_prefill
                &&& chosen.batch@ == evicted.scheduler.running@
                &&& after.scheduler.waiting@ == seq![output.batch@[0]]
                    + evicted.scheduler.waiting@
                &&& after.scheduler.running@ == evicted.scheduler.running@
                &&& after.scheduler.max_running == evicted.scheduler.max_running
                &&& after.scheduler.effective_max_running
                    == evicted.scheduler.effective_max_running
                &&& after == (InferenceEngine { scheduler: after.scheduler, ..evicted })
            } else {
                &&& chosen == output
                &&& after == evicted
            }
        }
}

/// An idle engine looks at its queue at least fifty times and at most a thousand times a second,
/// trims once and not before its time, and does not sleep through that time.
pub proof fn law_idle_engine_stays_awake(trim_after_secs: Option<u64>, trimmed: bool, elapsed_us: u64)
    ensures
        1_000 <= idle_sleep(trim_after_secs, trimmed, elapsed_us) <= 20_000,
        trim_after_secs is None ==> !trim_due(trim_after_secs, elapsed_us),
        trim_after_secs matches Some(secs) ==> {
            &&& trim_due(trim_after_secs, elapsed_us) <==> elapsed_us >= secs * 1_000_000
            &&& !trimmed && !trim_due(trim_after_secs, elapsed_us) && idle_sleep(
                trim_after_secs,
                trimmed,
                elapsed_us,
            ) > 1_000 ==> elapsed_us + idle_sleep(trim_after_secs, trimmed, elapsed_us) <= secs
                * 1_000_000
        },
{
}

/// Waiting for a fuller batch ends as soon as the batch is full or the time is over, whichever
/// comes first, and no sleep goes on beyond that time or the poll interval.
pub proof fn law_wait_ends_in_time(wait: WaitBatch, queued: usize, elapsed_us: u64)
    ensures
        wait_next(wait, queued, elapsed_us) == WaitBatchNext::TargetHit <==> queued >= wait.target,
        wait_next(wait, queued, elapsed_us) == WaitBatchNext::TimedOut <==> queued < wait.target
            && elapsed_us >= wait.wait_us,
        wait_next(wait, queued, elapsed_us) matches WaitBatchNext::Sleep { us } ==> elapsed_us + us
            <= wait.wait_us && us <= wait.poll_us && (us == wait.poll_us || elapsed_us + us
            == wait.wait_us),
{
}

/// A prefill for which there is no memory is not lost: it goes on once others made room, or it is
/// first in line again while those that run go on. Nothing else is put in front of it.
pub proof fn law_blocked_prefill_is_next(
    before: InferenceEngine,
    after: InferenceEngine,
    output: SchedulerOutput,
    chosen: SchedulerOutput,
    victims: Seq<Victim>,
)
    requires
        output.is_prefill,
        made_room(before, after, output, chosen, victims),
    ensures
        chosen.is_prefill ==> chosen == output,
        !chosen.is_prefill ==> {
            &&& after.scheduler.waiting@.len() > 0
            &&& after.scheduler.waiting@[0] == output.batch@[0]
            &&& after.scheduler.running@.len() > 0
            &&& chosen.batch@ == after.scheduler.running@
            &&& after.over_kv_budget(0)
        },
{
}

/// The cooldown after an eviction runs down by one a step and ends, and a step shows how many
/// sequences run and wait as it begins.
pub proof fn law_step_shows_the_queues(before: InferenceEngine, scheduler: Scheduler)
    ensures
        before.eviction_cooldown > 0 ==> step_begun(before, scheduler).eviction_cooldown + 1
            == before.eviction_cooldown,
        before.eviction_cooldown == 0 ==> step_begun(before, scheduler).eviction_cooldown == 0,
        before.scheduler.running@.len() <= u64::MAX ==> step_begun(
            before,
            scheduler,
        ).stats.active_sequences.value == before.scheduler.running@.len(),
        before.scheduler.waiting@.len() <= u64::MAX ==> step_begun(
            before,
            scheduler,
        ).stats.waiting_sequences.value == before.scheduler.waiting@.len(),
        step_begun(before, scheduler).sequences == before.sequences,
        step_begun(before, scheduler).scheduler == scheduler,
{
}

} // verus!
