//! The course of a batched decode step: what to do next, by what came of it so far.
//!
//! A batch is set up from pages that the last step left behind, from pages gathered anew, or from
//! the caches of its rows. The tokens of a round are taken from a captured argmax, sampled at
//! once, or sampled row by row.
use super::decode::BatchDecode;
use super::decode_rounds;
use super::decode_setup;
use super::extract::BatchedKvExtract;
use super::state::InferenceEngine;
use crate::sampling::{plan, recent, BatchGreedyMode};
use crate::stats::EngineStats;
use vstd::prelude::*;

verus! {

/// What came of setting up a batch so far.
#[derive(Debug)]
pub enum SetupEvent {
    /// Nothing was done yet.
    Begin,
    /// The batch was gathered from pages, where all of it is there.
    Gathered { extract: Option<BatchedKvExtract> },
    GatherFailed,
    /// These rows were to get caches of their own from pages.
    Materialized { rows: Vec<usize>, ok: bool },
}

/// How to go on with setting up a batch.
#[derive(Debug)]
pub enum SetupAction {
    /// Gather the batch from pages.
    Gather,
    /// Give these rows caches of their own from pages.
    Materialize { rows: Vec<usize> },
    /// Load pages into the model.
    LoadPages { extract: BatchedKvExtract, regathered: bool },
    /// Load the caches of the rows into the model.
    LoadRows,
    /// Give the step up; these rows failed.
    Fail { rows: Vec<usize> },
}

/// What came of sampling a round so far.
#[derive(Debug, Clone, Copy, PartialEq, Eq, Structural)]
pub enum SampleEvent {
    /// Nothing was done yet; a captured argmax wrote this many rows.
    Begin { captured: Option<usize> },
    /// The captured tokens were read.
    Captured { ok: bool },
    /// The greedy batch was sampled at once, in this way, for all rows.
    Greedy { mode: Option<BatchGreedyMode> },
    /// The device's own sampler sampled all rows.
    Drawn { ok: bool },
    /// The logits were prepared for sampling row by row.
    Prepared,
}

/// How to go on with sampling a round.
#[derive(Debug, Clone, Copy, PartialEq, Eq, Structural)]
pub enum SampleAction {
    /// Read the tokens of a captured argmax over this many rows.
    ReadCaptured { rows: usize },
    /// Sample a greedy batch at once.
    GreedyBatch,
    /// Let the device's own sampler sample the batch.
    DeviceBatch,
    /// Prepare the logits for sampling row by row.
    Prepare,
    /// Sample row by row.
    Rows,
    /// Take the tokens of the batch.
    Take,
}

/// How the live rows of a step keep their keys and values.
#[derive(Debug, Clone, Copy, PartialEq, Eq, Structural)]
pub enum SettlePlan {
    /// Nothing was decoded.
    Nothing,
    /// In pages, which wait for the next step.
    Pages,
    /// In caches of their own, taken from pages.
    RowsOfPages,
    /// In caches of their own, taken from the model's buffers.
    RowsOfBuffers,
}

/// Rows that need caches from pages before the batch can be set up row by row.
pub open spec fn rows_to_fill(engine: InferenceEngine, batch: Seq<u64>) -> Seq<usize> {
    if decode_setup::some_own_caches(engine, batch) {
        decode_setup::only_paged_rows(engine, batch, batch.len() as int)
    } else {
        Seq::empty()
    }
}

/// Statistics after a batch could not be gathered from pages.
pub open spec fn row_setup_counted(engine: InferenceEngine, batch: Seq<u64>) -> EngineStats {
    if decode_setup::some_own_caches(engine, batch) {
        EngineStats {
            total_paged_kv_batched_setup_fallback_per_seq_cache:
                engine.stats.total_paged_kv_batched_setup_fallback_per_seq_cache.plus(1),
            ..engine.stats
        }
    } else {
        EngineStats {
            total_paged_kv_batched_setup_fallback_regather_unavailable:
                engine.stats.total_paged_kv_batched_setup_fallback_regather_unavailable.plus(1),
            ..engine.stats
        }
    }
}

/// The statistics that setting up a batch leaves.
pub open spec fn setup_counted(engine: InferenceEngine, batch: Seq<u64>, event: SetupEvent) -> EngineStats {
    match event {
        SetupEvent::Begin => decode_setup::pending_counted(engine, batch),
        SetupEvent::Gathered { extract } => match extract {
            Some(_) => engine.stats,
            None => row_setup_counted(engine, batch),
        },
        SetupEvent::GatherFailed => EngineStats {
            total_paged_kv_batched_setup_fallback_regather_error:
                engine.stats.total_paged_kv_batched_setup_fallback_regather_error.plus(1),
            ..engine.stats
        },
        SetupEvent::Materialized { .. } => engine.stats,
    }
}

/// How setting up a batch goes on after an event.
pub open spec fn setup_goes_on(
    engine: InferenceEngine,
    batch: Seq<u64>,
    event: SetupEvent,
    action: SetupAction,
) -> bool {
    match event {
        SetupEvent::Begin => if decode_setup::pending_fits(engine, batch) {
            action == (SetupAction::LoadPages {
                extract: engine.pending_batched_kv_extract->Some_0.extract,
                regathered: false,
            })
        } else {
            action is Gather
        },
        SetupEvent::Gathered { extract } => match extract {
            Some(extract) => action == (SetupAction::LoadPages { extract, regathered: true }),
            None => if rows_to_fill(engine, batch).len() == 0 {
                action is LoadRows
            } else {
                action is Materialize && action->Materialize_rows@ == rows_to_fill(engine, batch)
            },
        },
        SetupEvent::GatherFailed => action is LoadRows,
        SetupEvent::Materialized { rows, ok } => if ok {
            action is LoadRows
        } else {
            action == (SetupAction::Fail { rows })
        },
    }
}

/// How the tokens of a round are sampled after an event.
pub open spec fn sample_goes_on(
    engine: InferenceEngine,
    step: BatchDecode,
    event: SampleEvent,
) -> SampleAction {
    let all = step.batch@.len();
    match event {
        SampleEvent::Begin { captured } => if captured == Some(all as usize)
            && decode_rounds::step_plain(engine, step) {
            SampleAction::ReadCaptured { rows: all as usize }
        } else if decode_rounds::step_greedy(engine, step) {
            SampleAction::GreedyBatch
        } else if decode_rounds::sampled_count(engine, step, all as int) > 0 {
            SampleAction::DeviceBatch
        } else {
            SampleAction::Prepare
        },
        SampleEvent::Captured { ok } => if ok {
            SampleAction::Take
        } else {
            SampleAction::GreedyBatch
        },
        SampleEvent::Greedy { mode } => match mode {
            Some(_) => SampleAction::Take,
            None => if decode_rounds::sampled_count(engine, step, all as int) > 0 {
                SampleAction::DeviceBatch
            } else {
                SampleAction::Prepare
            },
        },
        SampleEvent::Drawn { ok } => if ok {
            SampleAction::Take
        } else {
            SampleAction::Prepare
        },
        SampleEvent::Prepared => SampleAction::Rows,
    }
}

/// The statistics that sampling a round leaves; `active_rows` rows are alive.
pub open spec fn sample_counted(
    engine: InferenceEngine,
    step: BatchDecode,
    event: SampleEvent,
    active_rows: u64,
) -> EngineStats {
    let sampled = decode_rounds::sampled_count(engine, step, step.batch@.len() as int);
    match event {
        SampleEvent::Begin { .. } => engine.stats,
        SampleEvent::Captured { ok } => if ok {
            decode_rounds::greedy_counted(
                engine.stats,
                BatchGreedyMode::CudaBf16NoPenalty,
                active_rows,
            )
        } else {
            engine.stats
        },
        SampleEvent::Greedy { mode } => match mode {
            Some(mode) => decode_rounds::greedy_counted(engine.stats, mode, active_rows),
            None => EngineStats {
                total_sampling_batch_greedy_fallbacks:
                    engine.stats.total_sampling_batch_greedy_fallbacks.plus(1),
                ..engine.stats
            },
        },
        SampleEvent::Drawn { ok } => if ok {
            decode_rounds::non_greedy_counted(engine.stats, true, sampled as u64)
        } else {
            engine.stats
        },
        SampleEvent::Prepared => if sampled > 0 {
            decode_rounds::non_greedy_counted(engine.stats, false, sampled as u64)
        } else {
            engine.stats
        },
    }
}

impl InferenceEngine {
    /// Decides how to go on with setting up a batch.
    pub fn next_setup(&mut self, batch: &Vec<u64>, event: SetupEvent) -> (result: SetupAction)
        requires
            old(self).wf(),
        ensures
            final(self).wf(),
            *final(self) == (InferenceEngine {
                pending_batched_kv_extract: if event is Begin {
                    None
                } else {
                    old(self).pending_batched_kv_extract
                },
                stats: setup_counted(*old(self), batch@, event),
                ..*old(self)
            }),
            setup_goes_on(*old(self), batch@, event, result),
    {
        match event {
            SetupEvent::Begin => match self.take_pending(batch) {
                Some(extract) => SetupAction::LoadPages { extract, regathered: false },
                None => SetupAction::Gather,
            },
            SetupEvent::Gathered { extract } => match extract {
                Some(extract) => SetupAction::LoadPages { extract, regathered: true },
                None => {
                    let rows = self.plan_row_setup(batch);
                    if rows.len() == 0 {
                        SetupAction::LoadRows
                    } else {
                        SetupAction::Materialize { rows }
                    }
                },
            },
            SetupEvent::GatherFailed => {
                self.record_regather_error();
                SetupAction::LoadRows
            },
            SetupEvent::Materialized { rows, ok } => if ok {
                SetupAction::LoadRows
            } else {
                SetupAction::Fail { rows }
            },
        }
    }

    /// Decides how to go on with sampling a round; `active_rows` rows are alive.
    pub fn next_sampling(&mut self, step: &BatchDecode, event: SampleEvent, active_rows: u64) -> (result:
        SampleAction)
        requires
            old(self).wf(),
            step.alive@.len() == step.batch@.len(),
        ensures
            final(self).wf(),
            *final(self) == (InferenceEngine {
                stats: sample_counted(*old(self), *step, event, active_rows),
                ..*old(self)
            }),
            result == sample_goes_on(*old(self), *step, event),
    {
        let rows: usize = step.batch.len();
        match event {
            SampleEvent::Begin { captured } => {
                if self.can_use_captured_tokens(step, captured) {
                    return SampleAction::ReadCaptured { rows };
                }
                if self.is_batch_greedy(step) {
                    return SampleAction::GreedyBatch;
                }
                if self.active_non_greedy(step) > 0 {
                    SampleAction::DeviceBatch
                } else {
                    SampleAction::Prepare
                }
            },
            SampleEvent::Captured { ok } => {
                if !ok {
                    return SampleAction::GreedyBatch;
                }
                self.record_batch_greedy(BatchGreedyMode::CudaBf16NoPenalty, active_rows);
                SampleAction::Take
            },
            SampleEvent::Greedy { mode } => match mode {
                Some(mode) => {
                    self.record_batch_greedy(mode, active_rows);
                    SampleAction::Take
                },
                None => {
                    let sampled: u64 = self.active_non_greedy(step);
                    self.record_greedy_fallback();
                    if sampled > 0 {
                        SampleAction::DeviceBatch
                    } else {
                        SampleAction::Prepare
                    }
                },
            },
            SampleEvent::Drawn { ok } => {
                if !ok {
                    return SampleAction::Prepare;
                }
                let sampled: u64 = self.active_non_greedy(step);
                self.record_batch_non_greedy(true, sampled);
                SampleAction::Take
            },
            SampleEvent::Prepared => {
                let sampled: u64 = self.active_non_greedy(step);
                if sampled > 0 {
                    self.record_batch_non_greedy(false, sampled);
                }
                SampleAction::Rows
            },
        }
    }

    /// How the live rows of a step keep their keys and values; `from_pages`: all of them were
    /// taken out of pages.
    pub fn plan_settle(&self, step: &BatchDecode, from_pages: bool) -> (result: SettlePlan)
        ensures
            result == if step.rounds_done == 0 {
                SettlePlan::Nothing
            } else if !from_pages {
                SettlePlan::RowsOfBuffers
            } else if self.settings.paged_kv_batched_setup {
                SettlePlan::Pages
            } else {
                SettlePlan::RowsOfPages
            },
    {
        if step.rounds_done == 0 {
            SettlePlan::Nothing
        } else if !from_pages {
            SettlePlan::RowsOfBuffers
        } else if self.settings.paged_kv_batched_setup {
            SettlePlan::Pages
        } else {
            SettlePlan::RowsOfPages
        }
    }
}

proof fn lemma_greedy_counts_none(engine: InferenceEngine, step: BatchDecode, count: int)
    requires
        count <= step.batch@.len(),
        decode_rounds::step_greedy(engine, step),
    ensures
        decode_rounds::sampled_count(engine, step, count) == 0,
    decreases count,
{
    if count > 0 {
        lemma_greedy_counts_none(engine, step, count - 1);
    }
}

/// A greedy batch is never handed to the device's own sampler.
pub proof fn law_greedy_batch_needs_no_chance(
    engine: InferenceEngine,
    step: BatchDecode,
    event: SampleEvent,
)
    requires
        decode_rounds::step_greedy(engine, step),
    ensures
        !(sample_goes_on(engine, step, event) is DeviceBatch),
{
    lemma_greedy_counts_none(engine, step, step.batch@.len() as int);
}

/// Answers until the tokens are taken or sampled row by row, at most.
pub open spec fn sample_steps_left(action: SampleAction) -> int {
    match action {
        SampleAction::ReadCaptured { .. } => 4,
        SampleAction::GreedyBatch => 3,
        SampleAction::DeviceBatch => 2,
        SampleAction::Prepare => 1,
        SampleAction::Rows => 0,
        SampleAction::Take => 0,
    }
}

/// The event that answers an action.
pub open spec fn answers(event: SampleEvent, action: SampleAction) -> bool {
    match action {
        SampleAction::ReadCaptured { .. } => event is Captured,
        SampleAction::GreedyBatch => event is Greedy,
        SampleAction::DeviceBatch => event is Drawn,
        SampleAction::Prepare => event is Prepared,
        SampleAction::Rows => false,
        SampleAction::Take => false,
    }
}

/// Every answer brings the sampling of a round nearer to its end.
pub proof fn law_sampling_ends(
    engine: InferenceEngine,
    step: BatchDecode,
    action: SampleAction,
    event: SampleEvent,
)
    requires
        answers(event, action),
    ensures
        sample_steps_left(sample_goes_on(engine, step, event)) < sample_steps_left(action),
{
}

/// How a round is sampled depends on its live rows alone: what a graph has sampled is read only if
/// it did so for every row and every live row takes the likeliest token unpenalised; rows are taken
/// greedily together only if every live row is greedy; and a device draws only if some live row is
/// not.
pub proof fn law_rows_decide_how_they_are_sampled(
    engine: InferenceEngine,
    step: BatchDecode,
    captured: Option<usize>,
    r: int,
)
    requires
        0 <= r < step.batch@.len(),
        step.alive@[r],
        engine.has(step.batch@[r]),
    ensures
        ({
            let action = sample_goes_on(engine, step, SampleEvent::Begin { captured });
            let greedy = plan::greedy(engine.sequence(step.batch@[r]));
            &&& action matches SampleAction::ReadCaptured { rows } ==> greedy && !recent::penalised(
                engine.sequence(step.batch@[r]),
            ) && captured == Some(rows) && rows == step.batch@.len() as usize
            &&& action == SampleAction::GreedyBatch ==> greedy
            &&& !greedy ==> action == SampleAction::DeviceBatch
        }),
{
    let n = step.batch@.len() as int;
    if !plan::greedy(engine.sequence(step.batch@[r])) {
        assert(!decode_rounds::greedy_row(engine, step.batch@[r]));
        lemma_sampled_counts(engine, step, r, n);
    }
    if decode_rounds::step_plain(engine, step) {
        assert(decode_rounds::plain_row(engine, step.batch@[r]));
    }
    if decode_rounds::step_greedy(engine, step) {
        assert(decode_rounds::greedy_row(engine, step.batch@[r]));
    }
}

proof fn lemma_sampled_counts(engine: InferenceEngine, step: BatchDecode, r: int, count: int)
    requires
        0 <= r < count,
        step.alive@[r],
        decode_rounds::sampled_row(engine, step.batch@[r]),
    ensures
        decode_rounds::sampled_count(engine, step, count) > 0,
    decreases count,
{
    if r < count - 1 {
        lemma_sampled_counts(engine, step, r, count - 1);
    } else {
        lemma_sampled_not_below_zero(engine, step, count - 1);
    }
}

proof fn lemma_sampled_not_below_zero(engine: InferenceEngine, step: BatchDecode, count: int)
    ensures
        decode_rounds::sampled_count(engine, step, count) >= 0,
    decreases count,
{
    if count > 0 {
        lemma_sampled_not_below_zero(engine, step, count - 1);
    }
}

/// Before a batch is set up row by row, caches are fetched from pages for just those rows that have
/// pages and no caches, unless no row has caches at all.
pub proof fn law_only_bare_rows_are_filled(engine: InferenceEngine, batch: Seq<u64>, r: int)
    requires
        0 <= r < batch.len() <= usize::MAX,
    ensures
        rows_to_fill(engine, batch).contains(r as usize) <==> {
            &&& engine.has(batch[r])
            &&& !engine.sequence(batch[r]).has_caches()
            &&& engine.sequence(batch[r]).paged_kv.token_len > 0
            &&& exists|q: int|
                0 <= q < batch.len() && engine.has(#[trigger] batch[q]) && engine.sequence(
                    batch[q],
                ).has_caches()
        },
{
    lemma_only_paged(engine, batch, batch.len() as int, r);
}

proof fn lemma_only_paged(engine: InferenceEngine, batch: Seq<u64>, count: int, r: int)
    requires
        0 <= r < batch.len() <= usize::MAX,
        0 <= count <= batch.len(),
    ensures
        decode_setup::only_paged_rows(engine, batch, count).contains(r as usize) <==> r < count
            && engine.only_in_pages(batch[r]),
    decreases count,
{
    if count > 0 {
        lemma_only_paged(engine, batch, count - 1, r);
        let head = decode_setup::only_paged_rows(engine, batch, count - 1);
        let all = decode_setup::only_paged_rows(engine, batch, count);
        if head.contains(r as usize) {
            let k = head.index_of(r as usize);
            assert(all[k] == r as usize);
        }
        if all.contains(r as usize) && !head.contains(r as usize) {
            let k = all.index_of(r as usize);
            if k < head.len() {
                assert(head[k] == r as usize);
            }
            assert(r == count - 1);
        }
        if r == count - 1 && engine.only_in_pages(batch[r]) {
            assert(all[head.len() as int] == r as usize);
        }
    }
}

/// A batch is set up from the best that is there: what the last step left behind, if it fits; else
/// what could be gathered; else the caches of its rows. It fails only where rows could not be
/// filled.
pub proof fn law_setup_takes_the_best(
    engine: InferenceEngine,
    batch: Seq<u64>,
    event: SetupEvent,
    action: SetupAction,
)
    requires
        setup_goes_on(engine, batch, event, action),
    ensures
        action matches SetupAction::LoadPages { extract, regathered } ==> if regathered {
            event == (SetupEvent::Gathered { extract: Some(extract) })
        } else {
            event is Begin && decode_setup::pending_fits(engine, batch)
                && engine.pending_batched_kv_extract->Some_0.extract == extract
        },
        event is Begin && decode_setup::pending_fits(engine, batch) ==> action is LoadPages,
        event matches SetupEvent::Gathered { extract: Some(_) } ==> action is LoadPages,
        action matches SetupAction::Fail { rows } ==> event == (SetupEvent::Materialized {
            rows,
            ok: false,
        }),
        event matches SetupEvent::Materialized { ok: false, .. } ==> action is Fail,
        event is GatherFailed ==> action is LoadRows,
{
}

} // verus!
