//! What the statistics show of a step is what was measured of it.
use super::backend::{BatchDecodeExtractTimings, BatchDecodeSetupTimings};
use super::decode_finish::{self, BatchDecodeTimings};
use super::decode_rounds;
use super::turns::{self, PrefillTimings, SequentialTimings};
use crate::stats::{self, EngineStats, StatsSnapshot};
use vstd::prelude::*;

verus! {

/// Each time that was taken of a prefill is added to the figure that is shown for it.
pub proof fn law_prefill_is_shown(
    stats: EngineStats,
    timings: PrefillTimings,
    before: StatsSnapshot,
    after: StatsSnapshot,
)
    requires
        stats.shown_by(before),
        turns::prefill_counted(stats, timings).shown_by(after),
    ensures
        stats::grew(before.total_prefill_steps, after.total_prefill_steps) == 1,
        stats::grew(before.total_queue_wait_time_us, after.total_queue_wait_time_us) == timings.queue_wait_us,
        stats::grew(before.total_time_to_first_token_us, after.total_time_to_first_token_us) == timings.ttft_us,
        stats::grew(before.total_prefill_forward_time_us, after.total_prefill_forward_time_us) == timings.forward_us,
        stats::grew(before.total_prefill_sampling_time_us, after.total_prefill_sampling_time_us) == timings.sampling_us,
        stats::grew(before.total_prefill_swap_time_us, after.total_prefill_swap_time_us) == timings.swap_us,
        stats::moved(
            stats.total_prefill_time_us,
            turns::prefill_counted(stats, timings).total_prefill_time_us,
        ) == timings.prefill_us,
{
    stats::law_counters_add_up(stats.total_prefill_steps, 1);
    stats::law_counters_add_up(stats.total_queue_wait_time_us, timings.queue_wait_us);
    stats::law_counters_add_up(stats.total_time_to_first_token_us, timings.ttft_us);
    stats::law_counters_add_up(stats.total_prefill_forward_time_us, timings.forward_us);
    stats::law_counters_add_up(stats.total_prefill_sampling_time_us, timings.sampling_us);
    stats::law_counters_add_up(stats.total_prefill_swap_time_us, timings.swap_us);
    stats::law_counters_add_up(stats.total_prefill_time_us, timings.prefill_us);
}

/// Each time that was taken of a sequential step, and its tokens, are added to the figures that are
/// shown for them, and the step counts towards the decode rate.
pub proof fn law_sequential_step_is_shown(
    stats: EngineStats,
    tokens: u64,
    timings: SequentialTimings,
    before: StatsSnapshot,
    after: StatsSnapshot,
)
    requires
        stats.shown_by(before),
        turns::sequential_counted(stats, tokens, timings).shown_by(after),
    ensures
        stats::grew(before.total_sequential_decode_calls, after.total_sequential_decode_calls) == 1,
        stats::grew(before.total_sequential_decode_tokens, after.total_sequential_decode_tokens) == tokens,
        stats::grew(before.total_sequential_decode_time_us, after.total_sequential_decode_time_us) == timings.decode_us,
        stats::grew(before.total_sequential_decode_forward_time_us, after.total_sequential_decode_forward_time_us) == timings.forward_us,
        stats::grew(before.total_sequential_decode_sampling_time_us, after.total_sequential_decode_sampling_time_us) == timings.sampling_us,
        stats::moved(
            stats.total_decode_time_us,
            turns::sequential_counted(stats, tokens, timings).total_decode_time_us,
        ) == timings.decode_us,
{
    stats::law_counters_add_up(stats.total_sequential_decode_calls, 1);
    stats::law_counters_add_up(stats.total_sequential_decode_tokens, tokens);
    stats::law_counters_add_up(stats.total_sequential_decode_time_us, timings.decode_us);
    stats::law_counters_add_up(stats.total_sequential_decode_forward_time_us, timings.forward_us);
    stats::law_counters_add_up(stats.total_sequential_decode_sampling_time_us, timings.sampling_us);
    stats::law_counters_add_up(stats.total_decode_time_us, timings.decode_us);
}

/// Each time that was taken of a batched step, and its tokens, are added to the figures that are
/// shown for them, and the step counts towards the decode rate.
pub proof fn law_batched_step_is_shown(
    stats: EngineStats,
    tokens: u64,
    timings: BatchDecodeTimings,
    setup: BatchDecodeSetupTimings,
    extract: BatchDecodeExtractTimings,
    before: StatsSnapshot,
    after: StatsSnapshot,
)
    requires
        stats.shown_by(before),
        decode_finish::step_counted(stats, tokens, timings, setup, extract).shown_by(after),
    ensures
        stats::grew(before.total_batch_decode_calls, after.total_batch_decode_calls) == 1,
        stats::grew(before.total_batch_decode_tokens, after.total_batch_decode_tokens) == tokens,
        stats::grew(before.total_batch_decode_time_us, after.total_batch_decode_time_us) == timings.decode_us,
        stats::grew(before.total_batch_decode_setup_time_us, after.total_batch_decode_setup_time_us) == timings.setup_us,
        stats::grew(before.total_batch_decode_mask_time_us, after.total_batch_decode_mask_time_us) == timings.mask_us,
        stats::grew(before.total_batch_decode_forward_time_us, after.total_batch_decode_forward_time_us) == timings.forward_us,
        stats::grew(before.total_batch_decode_sampling_time_us, after.total_batch_decode_sampling_time_us) == timings.sampling_us,
        stats::grew(before.total_batch_decode_extract_time_us, after.total_batch_decode_extract_time_us) == timings.extract_us,
        stats::moved(
            stats.total_decode_time_us,
            decode_finish::step_counted(stats, tokens, timings, setup, extract).total_decode_time_us,
        ) == timings.decode_us,
{
    stats::law_counters_add_up(stats.total_batch_decode_calls, 1);
    stats::law_counters_add_up(stats.total_batch_decode_tokens, tokens);
    stats::law_counters_add_up(stats.total_batch_decode_time_us, timings.decode_us);
    stats::law_counters_add_up(stats.total_batch_decode_setup_time_us, timings.setup_us);
    stats::law_counters_add_up(stats.total_batch_decode_mask_time_us, timings.mask_us);
    stats::law_counters_add_up(stats.total_batch_decode_forward_time_us, timings.forward_us);
    stats::law_counters_add_up(stats.total_batch_decode_sampling_time_us, timings.sampling_us);
    stats::law_counters_add_up(stats.total_batch_decode_extract_time_us, timings.extract_us);
    stats::law_counters_add_up(stats.total_decode_time_us, timings.decode_us);
}

/// The same of the parts of setting a batch up and of taking it apart.
pub proof fn law_parts_of_a_batched_step_are_shown(
    stats: EngineStats,
    tokens: u64,
    timings: BatchDecodeTimings,
    setup: BatchDecodeSetupTimings,
    extract: BatchDecodeExtractTimings,
    before: StatsSnapshot,
    after: StatsSnapshot,
)
    requires
        stats.shown_by(before),
        decode_finish::step_counted(stats, tokens, timings, setup, extract).shown_by(after),
    ensures
        stats::grew(before.total_batch_decode_setup_kv_len_scan_time_us, after.total_batch_decode_setup_kv_len_scan_time_us) == setup.kv_len_scan_us,
        stats::grew(before.total_batch_decode_setup_pad_stack_time_us, after.total_batch_decode_setup_pad_stack_time_us) == setup.pad_stack_us,
        stats::grew(before.total_batch_decode_setup_contiguous_time_us, after.total_batch_decode_setup_contiguous_time_us) == setup.contiguous_us,
        stats::grew(before.total_batch_decode_setup_extra_room_time_us, after.total_batch_decode_setup_extra_room_time_us) == setup.extra_room_alloc_us,
        stats::grew(before.total_batch_decode_setup_cache_assign_time_us, after.total_batch_decode_setup_cache_assign_time_us) == setup.cache_assign_us,
        stats::grew(before.total_batch_decode_extract_narrow_time_us, after.total_batch_decode_extract_narrow_time_us) == extract.narrow_us,
        stats::grew(before.total_batch_decode_extract_contiguous_time_us, after.total_batch_decode_extract_contiguous_time_us) == extract.contiguous_us,
        stats::grew(before.total_batch_decode_extract_cache_clear_time_us, after.total_batch_decode_extract_cache_clear_time_us) == extract.cache_clear_us,
        stats::grew(before.total_batch_decode_extract_state_replace_time_us, after.total_batch_decode_extract_state_replace_time_us) == timings.extract_state_replace_us,
{
    stats::law_counters_add_up(stats.total_batch_decode_setup_kv_len_scan_time_us, setup.kv_len_scan_us);
    stats::law_counters_add_up(stats.total_batch_decode_setup_pad_stack_time_us, setup.pad_stack_us);
    stats::law_counters_add_up(stats.total_batch_decode_setup_contiguous_time_us, setup.contiguous_us);
    stats::law_counters_add_up(stats.total_batch_decode_setup_extra_room_time_us, setup.extra_room_alloc_us);
    stats::law_counters_add_up(stats.total_batch_decode_setup_cache_assign_time_us, setup.cache_assign_us);
    stats::law_counters_add_up(stats.total_batch_decode_extract_narrow_time_us, extract.narrow_us);
    stats::law_counters_add_up(stats.total_batch_decode_extract_contiguous_time_us, extract.contiguous_us);
    stats::law_counters_add_up(stats.total_batch_decode_extract_cache_clear_time_us, extract.cache_clear_us);
    stats::law_counters_add_up(stats.total_batch_decode_extract_state_replace_time_us, timings.extract_state_replace_us);
}

/// A token that was sampled for a single row is counted as greedy or as drawn, and one that could
/// not be sampled as a failure.
pub proof fn law_row_tokens_are_counted_once(stats: EngineStats, greedy: bool)
    ensures
        stats::moved(
            stats.total_sampling_row_greedy_tokens,
            turns::row_counted(stats, greedy).total_sampling_row_greedy_tokens,
        ) == if greedy {
            1int
        } else {
            0
        },
        stats::moved(
            stats.total_sampling_non_greedy_tokens,
            turns::row_counted(stats, greedy).total_sampling_non_greedy_tokens,
        ) == if greedy {
            0int
        } else {
            1
        },
        turns::row_counted(stats, greedy).total_sampling_failures == stats.total_sampling_failures,
        stats::moved(
            stats.total_sampling_failures,
            turns::failure_counted(stats).total_sampling_failures,
        ) == 1,
{
}

/// A round that ran without a graph is counted as a fallback with its rows, one that replayed a
/// graph as a replay with its rows, and one that was fed from the device with all of its rows.
pub proof fn law_rounds_are_counted_by_how_they_ran(stats: EngineStats, rows: u64)
    ensures
        stats::moved(
            stats.total_cuda_graph_decode_fallback_tokens,
            decode_rounds::fallback_counted(stats, rows).total_cuda_graph_decode_fallback_tokens,
        ) == rows,
        stats::moved(
            stats.total_cuda_graph_decode_fallbacks,
            decode_rounds::fallback_counted(stats, rows).total_cuda_graph_decode_fallbacks,
        ) == 1,
        stats::moved(
            stats.total_cuda_graph_decode_replay_tokens,
            decode_rounds::replay_counted(stats, rows).total_cuda_graph_decode_replay_tokens,
        ) == rows,
        stats::moved(
            stats.total_cuda_graph_decode_replay_calls,
            decode_rounds::replay_counted(stats, rows).total_cuda_graph_decode_replay_calls,
        ) == 1,
        stats::moved(
            stats.total_batch_decode_device_token_input_tokens,
            decode_rounds::device_input_counted(
                stats,
                rows as int,
            ).total_batch_decode_device_token_input_tokens,
        ) == rows,
        stats::moved(
            stats.total_batch_decode_device_token_input_hits,
            decode_rounds::device_input_counted(
                stats,
                rows as int,
            ).total_batch_decode_device_token_input_hits,
        ) == 1,
{
    stats::law_counters_add_up(stats.total_cuda_graph_decode_fallback_tokens, rows);
    stats::law_counters_add_up(stats.total_cuda_graph_decode_replay_tokens, rows);
    stats::law_counters_add_up(stats.total_batch_decode_device_token_input_tokens, rows);
}

} // verus!
