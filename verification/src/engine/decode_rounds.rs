//! How each round of a batched decode step runs, and what is counted of it.
use super::decode::BatchDecode;
use super::residency::PagedAttentionPlan;
use super::rows;
use super::state::InferenceEngine;
use crate::cuda_graph::{self, CudaGraphDecodeKey, CudaGraphRound};
use crate::floats;
use crate::sampling::{self, plan, recent, BatchGreedyMode};
use crate::stats::{self, EngineStats};
use candle_core::{DType, Device};
use vstd::prelude::*;

verus! {

/// Elements that the buffers of captured graphs have room for.
#[derive(Debug, Clone, Copy, PartialEq, Eq, Structural)]
pub struct GraphBufferCapacities {
    pub input_ids: usize,
    pub position_ids: usize,
    pub append_offset: usize,
    pub mask: usize,
}

/// How a round runs.
#[derive(Debug)]
pub struct RoundPlan {
    /// Columns of the attention mask.
    pub mask_width: usize,
    /// Attention over device pages, where it is worth it.
    pub paged_attention: Option<PagedAttentionPlan>,
    /// Buffers have the same width in every round.
    pub fixed_width: bool,
    /// The tokens of the last round are fed as they are on the device.
    pub device_input: bool,
    /// Where keys and values are appended, for a round of fixed width.
    pub append_offset: Option<u32>,
    pub active_rows: u64,
}

/// Some buffer is too small for a batch of this size and width.
pub open spec fn buffers_move(
    capacities: GraphBufferCapacities,
    batch_size: int,
    cache_width: int,
) -> bool {
    ||| capacities.input_ids < batch_size
    ||| capacities.position_ids < batch_size
    ||| capacities.append_offset < 1
    ||| capacities.mask < batch_size * cache_width
}

/// Statistics after a round whose tokens are fed as they are on the device.
pub open spec fn device_input_counted(stats: EngineStats, rows: int) -> EngineStats {
    EngineStats {
        total_batch_decode_device_token_input_hits:
            stats.total_batch_decode_device_token_input_hits.plus(1),
        total_batch_decode_device_token_input_tokens:
            stats.total_batch_decode_device_token_input_tokens.plus(rows),
        ..stats
    }
}

/// Statistics after a greedy batch was sampled in this way.
pub open spec fn greedy_counted(
    stats: EngineStats,
    mode: BatchGreedyMode,
    active_rows: u64,
) -> EngineStats {
    let counted = EngineStats {
        total_sampling_batch_greedy_calls: stats.total_sampling_batch_greedy_calls.plus(1),
        total_sampling_batch_greedy_tokens: stats.total_sampling_batch_greedy_tokens.plus(
            active_rows as int,
        ),
        ..stats
    };
    match mode {
        BatchGreedyMode::CudaBf16NoPenalty => EngineStats {
            total_sampling_batch_greedy_cuda_plain_calls:
                stats.total_sampling_batch_greedy_cuda_plain_calls.plus(1),
            total_sampling_batch_greedy_cuda_plain_tokens:
                stats.total_sampling_batch_greedy_cuda_plain_tokens.plus(active_rows as int),
            ..counted
        },
        BatchGreedyMode::CudaBf16Penalty => EngineStats {
            total_sampling_batch_greedy_cuda_penalty_calls:
                stats.total_sampling_batch_greedy_cuda_penalty_calls.plus(1),
            total_sampling_batch_greedy_cuda_penalty_tokens:
                stats.total_sampling_batch_greedy_cuda_penalty_tokens.plus(active_rows as int),
            ..counted
        },
        BatchGreedyMode::TensorFallback => EngineStats {
            total_sampling_batch_greedy_tensor_fallback_calls:
                stats.total_sampling_batch_greedy_tensor_fallback_calls.plus(1),
            total_sampling_batch_greedy_tensor_fallback_tokens:
                stats.total_sampling_batch_greedy_tensor_fallback_tokens.plus(active_rows as int),
            ..counted
        },
    }
}

/// Statistics after rows that are not greedy were sampled, by the device's own sampler or row by
/// row.
pub open spec fn non_greedy_counted(stats: EngineStats, on_device: bool, rows: u64) -> EngineStats {
    let counted = EngineStats {
        total_sampling_batch_non_greedy_calls: stats.total_sampling_batch_non_greedy_calls.plus(1),
        total_sampling_batch_non_greedy_tokens: stats.total_sampling_batch_non_greedy_tokens.plus(
            rows as int,
        ),
        ..stats
    };
    if on_device {
        EngineStats {
            total_sampling_batch_non_greedy_cuda_bf16_calls:
                stats.total_sampling_batch_non_greedy_cuda_bf16_calls.plus(1),
            total_sampling_batch_non_greedy_cuda_bf16_tokens:
                stats.total_sampling_batch_non_greedy_cuda_bf16_tokens.plus(rows as int),
            ..counted
        }
    } else {
        EngineStats {
            total_sampling_batch_non_greedy_fallback_calls:
                stats.total_sampling_batch_non_greedy_fallback_calls.plus(1),
            total_sampling_batch_non_greedy_fallback_tokens:
                stats.total_sampling_batch_non_greedy_fallback_tokens.plus(rows as int),
            ..counted
        }
    }
}

/// Sequence `id` is there and greedy.
pub open spec fn greedy_row(engine: InferenceEngine, id: u64) -> bool {
    engine.has(id) && plan::greedy(engine.sequence(id))
}

/// Sequence `id` is there, greedy and not penalised.
pub open spec fn plain_row(engine: InferenceEngine, id: u64) -> bool {
    greedy_row(engine, id) && !recent::penalised(engine.sequence(id))
}

/// Sequence `id` is there and not greedy.
pub open spec fn sampled_row(engine: InferenceEngine, id: u64) -> bool {
    engine.has(id) && !plan::greedy(engine.sequence(id))
}

/// Rows that are alive and not greedy, among the first `count`.
pub open spec fn sampled_count(engine: InferenceEngine, step: BatchDecode, count: int) -> int
    decreases count,
{
    if count <= 0 {
        0
    } else {
        sampled_count(engine, step, count - 1) + if step.alive@[count - 1] && sampled_row(
            engine,
            step.batch@[count - 1],
        ) {
            1int
        } else {
            0
        }
    }
}

/// Every row that is alive is greedy.
pub open spec fn step_greedy(engine: InferenceEngine, step: BatchDecode) -> bool {
    forall|r: int|
        0 <= r < step.batch@.len() && #[trigger] step.alive@[r] ==> greedy_row(
            engine,
            step.batch@[r],
        )
}

/// Every row that is alive is greedy and not penalised.
pub open spec fn step_plain(engine: InferenceEngine, step: BatchDecode) -> bool {
    forall|r: int|
        0 <= r < step.batch@.len() && #[trigger] step.alive@[r] ==> plain_row(
            engine,
            step.batch@[r],
        )
}

impl InferenceEngine {
    /// Forgets captured graphs when the model's workspace was replaced.
    pub fn sync_workspace(&mut self, generation: u64)
        requires
            old(self).wf(),
        ensures
            final(self).wf(),
            *final(self) == (InferenceEngine { graphs: final(self).graphs, ..*old(self) }),
            final(self).graphs.workspace_generation == generation,
            if generation == old(self).graphs.workspace_generation {
                final(self).graphs == old(self).graphs
            } else {
                &&& final(self).graphs.entries@.len() == 0
                &&& final(self).graphs.poisoned@.len() == 0
            },
    {
        self.graphs.sync_generation(generation);
    }

    /// Forgets captured graphs when a buffer that they read would have to move for a batch of
    /// this size and width.
    pub fn prepare_graph_buffers(
        &mut self,
        capacities: GraphBufferCapacities,
        batch_size: usize,
        cache_width: usize,
    )
        requires
            old(self).wf(),
            batch_size * cache_width <= usize::MAX,
        ensures
            final(self).wf(),
            *final(self) == (InferenceEngine { graphs: final(self).graphs, ..*old(self) }),
            final(self).graphs.workspace_generation == old(self).graphs.workspace_generation,
            if old(self).settings.cuda_graph_decode.fixed_width_for(batch_size) && buffers_move(
                capacities,
                batch_size as int,
                cache_width as int,
            ) && old(self).graphs.entries@.len() > 0 {
                &&& final(self).graphs.entries@.len() == 0
                &&& final(self).graphs.poisoned@.len() == 0
            } else {
                final(self).graphs == old(self).graphs
            },
    {
        if self.settings.cuda_graph_decode.fixed_width_decode_for(batch_size) {
            let realloc = capacities.input_ids < batch_size || capacities.position_ids < batch_size
                || capacities.append_offset < 1 || capacities.mask < batch_size * cache_width;
            self.graphs.invalidate_on_realloc(realloc);
        }
    }

    /// Plans the next round. `device_tokens` says whether the tokens of the last round are still
    /// on the device.
    pub fn plan_decode_round(&mut self, step: &BatchDecode, device_tokens: bool) -> (result:
        RoundPlan)
        requires
            old(self).wf(),
            step.wf(old(self).settings.decode_tokens_per_seq as int),
            step.rounds_done < old(self).settings.decode_tokens_per_seq,
            step.original_max_kv + old(self).settings.decode_tokens_per_seq <= u32::MAX,
        ensures
            final(self).wf(),
            result.mask_width == step.attended(),
            result.paged_attention is Some <==> old(self).attends_pages(
                step.batch@,
                step.kv_lens@,
                step.rounds_done as int,
                step.alive@,
            ),
            match result.paged_attention {
                Some(plan) => {
                    let store = old(self).paged_kv_gpu_store->Some_0;
                    &&& store.pages == Some(plan.pages)
                    &&& plan.block_size == store.block_size
                    &&& plan.num_layers == store.layout.num_layers
                    &&& plan.table.covers(
                        old(self).row_tables(step.batch@, step.alive@),
                        store.block_size as int,
                        step.batch@.len() as int,
                    )
                },
                None => true,
            },
            result.fixed_width == (old(self).settings.cuda_graph_decode.fixed_width_for(
                step.batch@.len() as usize,
            ) && result.paged_attention is None),
            result.device_input == (old(self).settings.decode_device_token_input
                && !result.fixed_width && rows::all_alive(step.alive@) && device_tokens),
            result.append_offset == if result.fixed_width {
                Some(step.append_place() as u32)
            } else {
                None
            },
            result.active_rows == rows::alive_count(step.alive@),
            ({
                let attended = EngineStats {
                    total_paged_kv_attention_contexts: if result.paged_attention is Some {
                        old(self).stats.total_paged_kv_attention_contexts.plus(1)
                    } else {
                        old(self).stats.total_paged_kv_attention_contexts
                    },
                    total_paged_kv_attention_fallbacks: if old(self).attention_falls_back(
                        step.batch@,
                        step.kv_lens@,
                        step.rounds_done as int,
                        step.alive@,
                    ) {
                        old(self).stats.total_paged_kv_attention_fallbacks.plus(1)
                    } else {
                        old(self).stats.total_paged_kv_attention_fallbacks
                    },
                    ..old(self).stats
                };
                *final(self) == (InferenceEngine {
                    stats: if result.device_input {
                        device_input_counted(attended, step.batch@.len() as int)
                    } else {
                        attended
                    },
                    ..*old(self)
                })
            }),
    {
        let round: usize = step.rounds_done;
        let paged_attention = self.maybe_build_paged_attention_context(
            &step.batch,
            &step.kv_lens,
            round,
            &step.alive,
        );
        let fixed_width = self.settings.cuda_graph_decode.fixed_width_decode_for(step.batch.len())
            && paged_attention.is_none();
        let device_input = self.settings.decode_device_token_input && !fixed_width
            && rows::are_all_alive(&step.alive) && device_tokens;
        if device_input {
            self.stats.total_batch_decode_device_token_input_hits.fetch_add(1);
            self.stats.total_batch_decode_device_token_input_tokens.fetch_add(
                step.batch.len() as u64,
            );
        }
        let append_offset = if fixed_width {
            Some((step.original_max_kv + round) as u32)
        } else {
            None
        };
        RoundPlan {
            mask_width: step.original_max_kv + round + 1,
            paged_attention,
            fixed_width,
            device_input,
            append_offset,
            active_rows: rows::active_rows(&step.alive) as u64,
        }
    }

    /// Decides whether the round runs as a graph, and counts the decision. `cache_width` is the
    /// width of the batch buffers.
    pub fn plan_graph_round(
        &mut self,
        step: &BatchDecode,
        round: &RoundPlan,
        device: &Device,
        dtype: DType,
        has_mask: bool,
        cache_width: usize,
    ) -> (result: CudaGraphRound)
        requires
            old(self).wf(),
        ensures
            final(self).wf(),
            ({
                let planner = old(self).settings.cuda_graph_decode;
                let decision = planner.decision(
                    step.batch@.len() as usize,
                    crate::tensors::device_is_cuda(*device),
                    crate::tensors::dtype_is_bf16(dtype),
                    has_mask,
                    round.fixed_width,
                    round.paged_attention is Some,
                    round.append_offset is Some,
                );
                let key = graph_key(*old(self), decision, round.fixed_width, cache_width, has_mask);
                let counted = cuda_graph::recorded(
                    old(self).stats,
                    decision,
                    round.active_rows,
                );
                &&& planned_graph(*old(self), *final(self), key, result)
                &&& final(self).stats == if !round.fixed_width {
                    counted
                } else if result == CudaGraphRound::Eager {
                    fallback_counted(counted, round.active_rows)
                } else if result is Capture {
                    EngineStats {
                        total_cuda_graph_decode_capture_attempts:
                            counted.total_cuda_graph_decode_capture_attempts.plus(1),
                        ..counted
                    }
                } else {
                    counted
                }
            }),
            *final(self) == (InferenceEngine {
                graphs: final(self).graphs,
                stats: final(self).stats,
                ..*old(self)
            }),
    {
        let decision = self.settings.cuda_graph_decode.classify_round(
            step.batch.len(),
            device,
            dtype,
            has_mask,
            round.fixed_width,
            round.paged_attention.is_some(),
            round.append_offset.is_some(),
        );
        cuda_graph::record_decision(&mut self.stats, decision, round.active_rows);
        let key = self.graphs.key_for(
            decision,
            round.fixed_width,
            self.settings.cuda_graph_decode.capture_runtime(),
            cache_width,
            has_mask,
        );
        let no_reuse = self.settings.graph_no_reuse;
        let planned = self.graphs.plan_round(key, no_reuse);
        if round.fixed_width {
            match planned {
                CudaGraphRound::Eager => {
                    cuda_graph::record_fallback(&mut self.stats, round.active_rows);
                },
                CudaGraphRound::Capture { .. } => {
                    self.stats.total_cuda_graph_decode_capture_attempts.fetch_add(1);
                },
                CudaGraphRound::Replay { .. } => {},
            }
        }
        planned
    }

    /// Takes note of a replayed graph; a failed one falls back to a round without a graph.
    pub fn graph_replayed(&mut self, key: CudaGraphDecodeKey, ok: bool, active_rows: u64)
        requires
            old(self).wf(),
        ensures
            final(self).wf(),
            *final(self) == (InferenceEngine {
                graphs: final(self).graphs,
                stats: if ok {
                    replay_counted(old(self).stats, active_rows)
                } else {
                    fallback_counted(old(self).stats, active_rows)
                },
                ..*old(self)
            }),
            final(self).graphs.captured() == cuda_graph::kept_after_replay(
                old(self).graphs.captured(),
                key,
                ok,
                old(self).settings.cuda_graph_decode.max_replays,
            ),
            forall|k: CudaGraphDecodeKey| #[trigger]
                final(self).graphs.poisoned@.contains(k) <==> old(self).graphs.poisoned@.contains(k)
                    || (!ok && k == key),
            final(self).graphs.workspace_generation == old(self).graphs.workspace_generation,
    {
        if ok {
            cuda_graph::record_replay(&mut self.stats, active_rows);
        } else {
            cuda_graph::record_fallback(&mut self.stats, active_rows);
        }
        let limit: u32 = self.settings.cuda_graph_decode.max_replays();
        self.graphs.after_replay(key, ok, limit);
    }

    /// Takes note of a captured graph; a failed capture falls back to a round without a graph.
    pub fn graph_captured(
        &mut self,
        key: CudaGraphDecodeKey,
        ok: bool,
        captured_sample_batch: Option<usize>,
        active_rows: u64,
    )
        requires
            old(self).wf(),
        ensures
            final(self).wf(),
            *final(self) == (InferenceEngine {
                graphs: final(self).graphs,
                stats: if ok {
                    EngineStats {
                        total_cuda_graph_decode_capture_successes: old(
                            self,
                        ).stats.total_cuda_graph_decode_capture_successes.plus(1),
                        ..old(self).stats
                    }
                } else {
                    fallback_counted(
                        EngineStats {
                            total_cuda_graph_decode_capture_failures: old(
                                self,
                            ).stats.total_cuda_graph_decode_capture_failures.plus(1),
                            ..old(self).stats
                        },
                        active_rows,
                    )
                },
                ..*old(self)
            }),
            final(self).graphs.captured() == if ok {
                old(self).graphs.captured().insert(
                    key,
                    cuda_graph::CudaGraphDecodeEntry {
                        key,
                        captured_sample_batch,
                        replays_used: 0,
                    },
                )
            } else {
                old(self).graphs.captured()
            },
            forall|k: CudaGraphDecodeKey| #[trigger]
                final(self).graphs.poisoned@.contains(k) <==> old(self).graphs.poisoned@.contains(k)
                    || (!ok && k == key),
            final(self).graphs.workspace_generation == old(self).graphs.workspace_generation,
    {
        if ok {
            self.stats.total_cuda_graph_decode_capture_successes.fetch_add(1);
        } else {
            self.stats.total_cuda_graph_decode_capture_failures.fetch_add(1);
            cuda_graph::record_fallback(&mut self.stats, active_rows);
        }
        self.graphs.after_capture(key, ok, captured_sample_batch);
    }

    /// Counts a round that attended device pages.
    pub fn record_paged_attention(
        &mut self,
        active_rows: u64,
        layer_hits: u64,
        layer_fallbacks: u64,
    )
        ensures
            *final(self) == (InferenceEngine {
                stats: EngineStats {
                    total_paged_kv_attention_decode_calls: old(
                        self,
                    ).stats.total_paged_kv_attention_decode_calls.plus(1),
                    total_paged_kv_attention_decode_tokens: old(
                        self,
                    ).stats.total_paged_kv_attention_decode_tokens.plus(active_rows as int),
                    total_paged_kv_attention_layer_hits: old(
                        self,
                    ).stats.total_paged_kv_attention_layer_hits.plus(layer_hits as int),
                    total_paged_kv_attention_layer_fallbacks: old(
                        self,
                    ).stats.total_paged_kv_attention_layer_fallbacks.plus(layer_fallbacks as int),
                    ..old(self).stats
                },
                ..*old(self)
            }),
            old(self).wf() ==> final(self).wf(),
    {
        self.stats.total_paged_kv_attention_decode_calls.fetch_add(1);
        self.stats.total_paged_kv_attention_decode_tokens.fetch_add(active_rows);
        self.stats.total_paged_kv_attention_layer_hits.fetch_add(layer_hits);
        self.stats.total_paged_kv_attention_layer_fallbacks.fetch_add(layer_fallbacks);
    }

    /// Whether every row that is alive is greedy.
    pub fn is_batch_greedy(&self, step: &BatchDecode) -> (result: bool)
        requires
            self.wf(),
            step.alive@.len() == step.batch@.len(),
        ensures
            result == step_greedy(*self, *step),
    {
        let mut r: usize = 0;
        while r < step.batch.len()
            invariant
                r <= step.batch@.len(),
                self.wf(),
                step.alive@.len() == step.batch@.len(),
                forall|j: int|
                    0 <= j < r && #[trigger] step.alive@[j] ==> greedy_row(*self, step.batch@[j]),
            decreases step.batch@.len() - r,
        {
            if step.alive[r] {
                let greedy = match self.find(step.batch[r]) {
                    Some(i) => sampling::is_greedy(&self.sequences[i]),
                    None => false,
                };
                if !greedy {
                    assert(step.alive@[r as int] && !greedy_row(*self, step.batch@[r as int]));
                    return false;
                }
            }
            r = r + 1;
        }
        true
    }

    /// Whether the tokens of a captured argmax can be taken: it covers the whole batch, and every
    /// row that is alive is greedy and not penalised.
    pub fn can_use_captured_tokens(
        &self,
        step: &BatchDecode,
        captured_sample_batch: Option<usize>,
    ) -> (result: bool)
        requires
            self.wf(),
            step.alive@.len() == step.batch@.len(),
        ensures
            result == (captured_sample_batch == Some(step.batch@.len() as usize) && step_plain(
                *self,
                *step,
            )),
    {
        match captured_sample_batch {
            Some(rows) => {
                if rows != step.batch.len() {
                    return false;
                }
            },
            None => {
                return false;
            },
        }
        let mut r: usize = 0;
        while r < step.batch.len()
            invariant
                r <= step.batch@.len(),
                self.wf(),
                captured_sample_batch == Some(step.batch@.len() as usize),
                step.alive@.len() == step.batch@.len(),
                forall|j: int|
                    0 <= j < r && #[trigger] step.alive@[j] ==> plain_row(*self, step.batch@[j]),
            decreases step.batch@.len() - r,
        {
            if step.alive[r] {
                let plain = match self.find(step.batch[r]) {
                    Some(i) => sampling::is_greedy_no_penalty(&self.sequences[i]),
                    None => false,
                };
                if !plain {
                    assert(step.alive@[r as int] && !plain_row(*self, step.batch@[r as int]));
                    return false;
                }
            }
            r = r + 1;
        }
        true
    }

    /// How many rows are alive and not greedy.
    pub fn active_non_greedy(&self, step: &BatchDecode) -> (result: u64)
        requires
            self.wf(),
            step.alive@.len() == step.batch@.len(),
        ensures
            result == sampled_count(*self, *step, step.batch@.len() as int),
            result <= step.batch@.len(),
    {
        let mut count: u64 = 0;
        let mut r: usize = 0;
        while r < step.batch.len()
            invariant
                r <= step.batch@.len(),
                self.wf(),
                step.alive@.len() == step.batch@.len(),
                count == sampled_count(*self, *step, r as int),
                count <= r,
            decreases step.batch@.len() - r,
        {
            if step.alive[r] {
                match self.find(step.batch[r]) {
                    Some(i) => {
                        if !sampling::is_greedy(&self.sequences[i]) {
                            count = count + 1;
                        }
                    },
                    None => {},
                }
            }
            r = r + 1;
        }
        count
    }

    /// Counts a greedy batch.
    pub fn record_batch_greedy(&mut self, mode: BatchGreedyMode, active_rows: u64)
        ensures
            *final(self) == (InferenceEngine {
                stats: greedy_counted(old(self).stats, mode, active_rows),
                ..*old(self)
            }),
            old(self).wf() ==> final(self).wf(),
    {
        self.stats.total_sampling_batch_greedy_calls.fetch_add(1);
        self.stats.total_sampling_batch_greedy_tokens.fetch_add(active_rows);
        match mode {
            BatchGreedyMode::CudaBf16NoPenalty => {
                self.stats.total_sampling_batch_greedy_cuda_plain_calls.fetch_add(1);
                self.stats.total_sampling_batch_greedy_cuda_plain_tokens.fetch_add(active_rows);
            },
            BatchGreedyMode::CudaBf16Penalty => {
                self.stats.total_sampling_batch_greedy_cuda_penalty_calls.fetch_add(1);
                self.stats.total_sampling_batch_greedy_cuda_penalty_tokens.fetch_add(active_rows);
            },
            BatchGreedyMode::TensorFallback => {
                self.stats.total_sampling_batch_greedy_tensor_fallback_calls.fetch_add(1);
                self.stats.total_sampling_batch_greedy_tensor_fallback_tokens.fetch_add(
                    active_rows,
                );
            },
        }
    }

    /// Counts a greedy batch that could not be sampled at once.
    pub fn record_greedy_fallback(&mut self)
        ensures
            *final(self) == (InferenceEngine {
                stats: EngineStats {
                    total_sampling_batch_greedy_fallbacks: old(
                        self,
                    ).stats.total_sampling_batch_greedy_fallbacks.plus(1),
                    ..old(self).stats
                },
                ..*old(self)
            }),
            old(self).wf() ==> final(self).wf(),
    {
        self.stats.total_sampling_batch_greedy_fallbacks.fetch_add(1);
    }

    /// Counts `rows` rows that are not greedy, sampled by the device's own sampler or row by row.
    pub fn record_batch_non_greedy(&mut self, on_device: bool, rows: u64)
        ensures
            *final(self) == (InferenceEngine {
                stats: non_greedy_counted(old(self).stats, on_device, rows),
                ..*old(self)
            }),
            old(self).wf() ==> final(self).wf(),
    {
        self.stats.total_sampling_batch_non_greedy_calls.fetch_add(1);
        self.stats.total_sampling_batch_non_greedy_tokens.fetch_add(rows);
        if on_device {
            self.stats.total_sampling_batch_non_greedy_cuda_bf16_calls.fetch_add(1);
            self.stats.total_sampling_batch_non_greedy_cuda_bf16_tokens.fetch_add(rows);
        } else {
            self.stats.total_sampling_batch_non_greedy_fallback_calls.fetch_add(1);
            self.stats.total_sampling_batch_non_greedy_fallback_tokens.fetch_add(rows);
        }
    }

    /// Whether keys and values go into device pages before the next round: there is one, and it
    /// will want to attend them.
    pub fn appends_before_next_round(&self, step: &BatchDecode) -> (result: bool)
        ensures
            result == (step.rounds_done < self.settings.decode_tokens_per_seq && !rows::none_alive(
                step.alive@,
            ) && self.attention_worth_it(
                step.batch@.len() as int,
                step.kv_lens@,
                step.rounds_done as int,
                step.alive@,
            )),
    {
        step.has_next_round(self.settings.decode_tokens_per_seq)
            && self.should_attempt_paged_attention_for_round(
            &step.batch,
            &step.kv_lens,
            step.rounds_done,
            &step.alive,
        )
    }
}

/// Statistics after a round that ran without a graph.
pub open spec fn fallback_counted(stats: EngineStats, active_rows: u64) -> EngineStats {
    EngineStats {
        total_cuda_graph_decode_fallbacks: stats.total_cuda_graph_decode_fallbacks.plus(1),
        total_cuda_graph_decode_fallback_tokens: stats.total_cuda_graph_decode_fallback_tokens.plus(
            active_rows as int,
        ),
        ..stats
    }
}

/// Statistics after a round that replayed a graph.
pub open spec fn replay_counted(stats: EngineStats, active_rows: u64) -> EngineStats {
    EngineStats {
        total_cuda_graph_decode_replay_calls: stats.total_cuda_graph_decode_replay_calls.plus(1),
        total_cuda_graph_decode_replay_tokens: stats.total_cuda_graph_decode_replay_tokens.plus(
            active_rows as int,
        ),
        ..stats
    }
}

/// The key under which a round with this decision can run as a graph.
pub open spec fn graph_key(
    engine: InferenceEngine,
    decision: cuda_graph::CudaGraphDecodeDecision,
    fixed_width: bool,
    cache_width: usize,
    has_mask: bool,
) -> Option<CudaGraphDecodeKey> {
    match decision {
        cuda_graph::CudaGraphDecodeDecision::Ready { bucket } => {
            let key = CudaGraphDecodeKey { bucket, fixed_cache_width: cache_width, has_mask };
            if fixed_width && engine.settings.cuda_graph_decode.capture_runtime
                && !engine.graphs.poisoned@.contains(key) {
                Some(key)
            } else {
                None
            }
        },
        _ => None,
    }
}

/// `planned` is how a round with this key runs: as the captured graph, if there is one that can
/// be used again, else by capturing one.
pub open spec fn planned_graph(
    before: InferenceEngine,
    after: InferenceEngine,
    key: Option<CudaGraphDecodeKey>,
    planned: CudaGraphRound,
) -> bool {
    let captured = before.graphs.captured();
    &&& after.graphs.poisoned@ == before.graphs.poisoned@
    &&& after.graphs.workspace_generation == before.graphs.workspace_generation
    &&& match key {
        None => planned == CudaGraphRound::Eager && after.graphs.captured() == captured,
        Some(key) => if before.settings.graph_no_reuse || !captured.contains_key(key) {
            &&& planned == (CudaGraphRound::Capture { key })
            &&& after.graphs.captured() == captured.remove(key)
        } else {
            let entry = captured[key];
            &&& planned == (CudaGraphRound::Replay {
                key,
                captured_sample_batch: entry.captured_sample_batch,
            })
            &&& after.graphs.captured() == captured.insert(
                key,
                cuda_graph::CudaGraphDecodeEntry {
                    replays_used: if entry.replays_used < u32::MAX {
                        (entry.replays_used + 1) as u32
                    } else {
                        u32::MAX
                    },
                    ..entry
                },
            )
        },
    }
}

/// A key that failed is never captured or replayed again while the workspace stays the same.
pub proof fn law_failed_key_is_not_used(
    engine: InferenceEngine,
    decision: cuda_graph::CudaGraphDecodeDecision,
    fixed_width: bool,
    cache_width: usize,
    has_mask: bool,
    failed: CudaGraphDecodeKey,
)
    requires
        engine.graphs.poisoned@.contains(failed),
    ensures
        graph_key(engine, decision, fixed_width, cache_width, has_mask) != Some(failed),
{
}

/// A round that can run as a graph replays the one that was captured under its key, and that replay
/// is counted; without one, or where none is to be used twice, it captures one and no older one
/// stays. A round that cannot runs without. Graphs under other keys are left alone.
pub proof fn law_captured_graphs_are_replayed(
    before: InferenceEngine,
    after: InferenceEngine,
    key: Option<CudaGraphDecodeKey>,
    planned: CudaGraphRound,
    other: CudaGraphDecodeKey,
)
    requires
        planned_graph(before, after, key, planned),
    ensures
        planned == CudaGraphRound::Eager <==> key is None,
        planned matches CudaGraphRound::Replay { key: used, .. } ==> {
            &&& key == Some(used)
            &&& !before.settings.graph_no_reuse
            &&& before.graphs.captured().contains_key(used)
            &&& after.graphs.captured().contains_key(used)
            &&& before.graphs.captured()[used].replays_used < u32::MAX
                ==> after.graphs.captured()[used].replays_used
                == before.graphs.captured()[used].replays_used + 1
        },
        planned matches CudaGraphRound::Capture { key: used } ==> {
            &&& key == Some(used)
            &&& !after.graphs.captured().contains_key(used)
            &&& before.settings.graph_no_reuse || !before.graphs.captured().contains_key(used)
        },
        key != Some(other) ==> {
            &&& before.graphs.captured().contains_key(other)
                <==> after.graphs.captured().contains_key(other)
            &&& before.graphs.captured().contains_key(other) ==> after.graphs.captured()[other]
                == before.graphs.captured()[other]
        },
{
}

/// A graph is captured and replayed only for the shape that it was captured for: the batch size, the
/// width of the buffers and whether there is a mask.
pub proof fn law_graph_fits_its_round(
    engine: InferenceEngine,
    batch_size: usize,
    on_cuda: bool,
    is_bf16: bool,
    has_mask: bool,
    fixed_width: bool,
    has_paged_attention: bool,
    graph_safe_kv_append: bool,
    cache_width: usize,
)
    ensures
        ({
            let decision = engine.settings.cuda_graph_decode.decision(
                batch_size,
                on_cuda,
                is_bf16,
                has_mask,
                fixed_width,
                has_paged_attention,
                graph_safe_kv_append,
            );
            graph_key(engine, decision, fixed_width, cache_width, has_mask) matches Some(key) ==> {
                &&& key.bucket == batch_size
                &&& key.fixed_cache_width == cache_width
                &&& key.has_mask == has_mask
                &&& fixed_width && graph_safe_kv_append && !has_paged_attention
                &&& engine.settings.cuda_graph_decode.capture_runtime
            }
        }),
{
}

/// The rows of a greedy batch are counted once, under how they were sampled.
pub proof fn law_greedy_rows_are_counted_once(stats: EngineStats, mode: BatchGreedyMode, rows: u64)
    ensures
        ({
            let after = greedy_counted(stats, mode, rows);
            &&& stats::moved(
                stats.total_sampling_batch_greedy_tokens,
                after.total_sampling_batch_greedy_tokens,
            ) == rows
            &&& stats::moved(
                stats.total_sampling_batch_greedy_cuda_plain_tokens,
                after.total_sampling_batch_greedy_cuda_plain_tokens,
            ) == if mode == BatchGreedyMode::CudaBf16NoPenalty {
                rows as int
            } else {
                0
            }
            &&& stats::moved(
                stats.total_sampling_batch_greedy_cuda_penalty_tokens,
                after.total_sampling_batch_greedy_cuda_penalty_tokens,
            ) == if mode == BatchGreedyMode::CudaBf16Penalty {
                rows as int
            } else {
                0
            }
            &&& stats::moved(
                stats.total_sampling_batch_greedy_tensor_fallback_tokens,
                after.total_sampling_batch_greedy_tensor_fallback_tokens,
            ) == if mode == BatchGreedyMode::TensorFallback {
                rows as int
            } else {
                0
            }
        }),
{
    stats::law_counters_add_up(stats.total_sampling_batch_greedy_tokens, rows);
    stats::law_counters_add_up(stats.total_sampling_batch_greedy_cuda_plain_tokens, rows);
    stats::law_counters_add_up(stats.total_sampling_batch_greedy_cuda_penalty_tokens, rows);
    stats::law_counters_add_up(stats.total_sampling_batch_greedy_tensor_fallback_tokens, rows);
}

/// Rows that are drawn are counted once, on the device or as a fallback.
pub proof fn law_drawn_rows_are_counted_once(stats: EngineStats, on_device: bool, rows: u64)
    ensures
        ({
            let after = non_greedy_counted(stats, on_device, rows);
            &&& stats::moved(
                stats.total_sampling_batch_non_greedy_tokens,
                after.total_sampling_batch_non_greedy_tokens,
            ) == rows
            &&& stats::moved(
                stats.total_sampling_batch_non_greedy_cuda_bf16_tokens,
                after.total_sampling_batch_non_greedy_cuda_bf16_tokens,
            ) == if on_device {
                rows as int
            } else {
                0
            }
            &&& stats::moved(
                stats.total_sampling_batch_non_greedy_fallback_tokens,
                after.total_sampling_batch_non_greedy_fallback_tokens,
            ) == if on_device {
                0
            } else {
                rows as int
            }
        }),
{
    stats::law_counters_add_up(stats.total_sampling_batch_non_greedy_tokens, rows);
    stats::law_counters_add_up(stats.total_sampling_batch_non_greedy_cuda_bf16_tokens, rows);
    stats::law_counters_add_up(stats.total_sampling_batch_non_greedy_fallback_tokens, rows);
}

/// Buffers that stay where they are hold an entry for every row, the place of the append and a mask
/// of every row; and what holds a batch holds a smaller one.
pub proof fn law_kept_buffers_hold_the_batch(
    capacities: GraphBufferCapacities,
    batch_size: int,
    cache_width: int,
    fewer: int,
    narrower: int,
)
    requires
        0 <= fewer <= batch_size,
        0 <= narrower <= cache_width,
        !buffers_move(capacities, batch_size, cache_width),
    ensures
        capacities.input_ids >= batch_size,
        capacities.position_ids >= batch_size,
        capacities.append_offset >= 1,
        capacities.mask >= batch_size * cache_width,
        !buffers_move(capacities, fewer, narrower),
{
    assert(fewer * narrower <= batch_size * cache_width) by (nonlinear_arith)
        requires
            0 <= fewer <= batch_size,
            0 <= narrower <= cache_width,
    ;
}

/// A live row counts as one that is drawn if and only if its temperature is above zero; without a
/// temperature it is drawn too.
pub proof fn law_temperature_decides_who_is_drawn(engine: InferenceEngine, id: u64)
    requires
        engine.has(id),
    ensures
        sampled_row(engine, id) <==> !greedy_row(engine, id),
        engine.sequence(id).temperature is None ==> sampled_row(engine, id),
        engine.sequence(id).temperature matches Some(bits) ==> (greedy_row(engine, id)
            <==> floats::at_most_zero(bits)),
        plain_row(engine, id) ==> greedy_row(engine, id),
        greedy_row(engine, id) ==> (plain_row(engine, id) <==> engine.sequence(
            id,
        ).repetition_penalty == floats::SINGLE_ONE),
{
}

} // verus!
