//! Engine statistics.
//!
//! Counters are plain numbers that the engine thread owns; readers get a
//! snapshot. Averages and rates are exact quotients of counters.
use vstd::prelude::*;

verus! {

/// A number that only the engine changes. Adding wraps at the largest `u64`.
#[derive(Debug, Clone, Copy, PartialEq, Eq, Structural)]
pub struct Counter {
    pub value: u64,
}

impl Counter {
    /// This counter after `amount` was added.
    pub open spec fn plus(&self, amount: int) -> Counter {
        Counter { value: ((self.value + amount) % (u64::MAX + 1)) as u64 }
    }

    pub fn new(value: u64) -> (result: Self)
        ensures
            result.value == value,
    {
        Counter { value }
    }

    pub fn load(&self) -> (result: u64)
        ensures
            result == self.value,
    {
        self.value
    }

    pub fn store(&mut self, value: u64)
        ensures
            final(self).value == value,
    {
        self.value = value;
    }

    /// Adds `amount` and returns the value before.
    pub fn fetch_add(&mut self, amount: u64) -> (before: u64)
        ensures
            before == old(self).value,
            *final(self) == old(self).plus(amount as int),
    {
        let before: u64 = self.value;
        self.value = self.value.wrapping_add(amount);
        before
    }
}

/// How far a counter moved.
pub open spec fn moved(before: Counter, after: Counter) -> int {
    if after.value >= before.value {
        after.value - before.value
    } else {
        after.value - before.value + u64::MAX + 1
    }
}

/// How far a shown figure moved.
pub open spec fn grew(before: u64, after: u64) -> int {
    moved(Counter { value: before }, Counter { value: after })
}

/// An exact quotient with a positive denominator.
#[derive(Debug, Clone, Copy, PartialEq, Eq, Structural)]
pub struct Ratio {
    pub numerator: u128,
    pub denominator: u128,
}

impl Ratio {
    /// This is `numerator / denominator`, or zero where the denominator is zero.
    pub open spec fn is_quotient(&self, numerator: int, denominator: int) -> bool {
        if denominator == 0 {
            self.numerator == 0 && self.denominator == 1
        } else {
            self.numerator == numerator && self.denominator == denominator
        }
    }
}

/// Average milliseconds of `count` spans that took `total_us` microseconds together.
pub fn avg_ms(total_us: u64, count: u64) -> (result: Ratio)
    ensures
        result.is_quotient(total_us as int, count * 1000),
{
    if count > 0 {
        Ratio { numerator: total_us as u128, denominator: (count as u128) * 1000 }
    } else {
        Ratio { numerator: 0, denominator: 1 }
    }
}

/// Average microseconds of `count` spans that took `total_us` microseconds together.
pub fn avg_us(total_us: u64, count: u64) -> (result: Ratio)
    ensures
        result.is_quotient(total_us as int, count as int),
{
    if count > 0 {
        Ratio { numerator: total_us as u128, denominator: count as u128 }
    } else {
        Ratio { numerator: 0, denominator: 1 }
    }
}

/// Units per second, of `units` in `time_us` microseconds.
pub fn per_second(units: u64, time_us: u64) -> (result: Ratio)
    ensures
        result.is_quotient(units * 1_000_000, time_us as int),
{
    if time_us > 0 {
        Ratio { numerator: (units as u128) * 1_000_000, denominator: time_us as u128 }
    } else {
        Ratio { numerator: 0, denominator: 1 }
    }
}

/// Engine counters.
#[derive(Debug, Clone, Copy, PartialEq, Eq, Structural)]
pub struct EngineStats {
    pub total_requests: Counter,
    pub completed_requests: Counter,
    pub cancelled_requests: Counter,
    pub failed_requests: Counter,
    pub total_prompt_tokens: Counter,
    pub total_completion_tokens: Counter,
    pub total_prefill_time_us: Counter,
    pub total_decode_steps: Counter,
    pub total_decode_time_us: Counter,
    pub total_kv_swap_count: Counter,
    pub active_sequences: Counter,
    pub waiting_sequences: Counter,
    pub total_queue_wait_time_us: Counter,
    pub total_time_to_first_token_us: Counter,
    pub total_prefill_steps: Counter,
    pub total_prefill_forward_time_us: Counter,
    pub total_prefill_sampling_time_us: Counter,
    pub total_prefill_swap_time_us: Counter,
    pub total_prefix_cache_lookups: Counter,
    pub total_prefix_cache_hits: Counter,
    pub total_prefix_cache_hit_tokens: Counter,
    pub total_prefix_cache_inserts: Counter,
    pub total_prefix_cache_insert_tokens: Counter,
    pub total_prefix_cache_insert_time_us: Counter,
    pub prefix_cache_entries: Counter,
    pub prefix_cache_bytes: Counter,
    pub total_batch_decode_calls: Counter,
    pub total_batch_decode_tokens: Counter,
    pub total_batch_decode_time_us: Counter,
    pub total_batch_decode_setup_time_us: Counter,
    pub total_batch_decode_setup_kv_len_scan_time_us: Counter,
    pub total_batch_decode_setup_pad_stack_time_us: Counter,
    pub total_batch_decode_setup_contiguous_time_us: Counter,
    pub total_batch_decode_setup_extra_room_time_us: Counter,
    pub total_batch_decode_setup_cache_assign_time_us: Counter,
    pub total_batch_decode_mask_time_us: Counter,
    pub total_batch_decode_forward_time_us: Counter,
    pub total_batch_decode_sampling_time_us: Counter,
    pub total_batch_decode_extract_time_us: Counter,
    pub total_batch_decode_extract_narrow_time_us: Counter,
    pub total_batch_decode_extract_contiguous_time_us: Counter,
    pub total_batch_decode_extract_cache_clear_time_us: Counter,
    pub total_batch_decode_extract_state_replace_time_us: Counter,
    pub total_batch_decode_device_token_input_hits: Counter,
    pub total_batch_decode_device_token_input_tokens: Counter,
    pub total_sequential_decode_calls: Counter,
    pub total_sequential_decode_tokens: Counter,
    pub total_sequential_decode_time_us: Counter,
    pub total_sequential_decode_forward_time_us: Counter,
    pub total_sequential_decode_sampling_time_us: Counter,
    pub total_sampling_batch_greedy_calls: Counter,
    pub total_sampling_batch_greedy_tokens: Counter,
    pub total_sampling_batch_greedy_fallbacks: Counter,
    pub total_sampling_batch_greedy_cuda_plain_calls: Counter,
    pub total_sampling_batch_greedy_cuda_plain_tokens: Counter,
    pub total_sampling_batch_greedy_cuda_penalty_calls: Counter,
    pub total_sampling_batch_greedy_cuda_penalty_tokens: Counter,
    pub total_sampling_batch_greedy_tensor_fallback_calls: Counter,
    pub total_sampling_batch_greedy_tensor_fallback_tokens: Counter,
    pub total_sampling_batch_non_greedy_calls: Counter,
    pub total_sampling_batch_non_greedy_tokens: Counter,
    pub total_sampling_batch_non_greedy_cuda_bf16_calls: Counter,
    pub total_sampling_batch_non_greedy_cuda_bf16_tokens: Counter,
    pub total_sampling_batch_non_greedy_fallback_calls: Counter,
    pub total_sampling_batch_non_greedy_fallback_tokens: Counter,
    pub total_sampling_row_greedy_tokens: Counter,
    pub total_sampling_non_greedy_tokens: Counter,
    pub total_sampling_failures: Counter,
    pub total_paged_kv_metadata_syncs: Counter,
    pub total_paged_kv_new_pages: Counter,
    pub total_paged_kv_reused_pages: Counter,
    pub total_paged_kv_released_pages: Counter,
    pub total_paged_kv_compactions: Counter,
    pub total_paged_kv_compacted_pages: Counter,
    pub total_paged_kv_idle_resets: Counter,
    pub total_paged_kv_idle_reset_pages: Counter,
    pub total_paged_kv_pressure_skips: Counter,
    pub total_paged_kv_pressure_released_pages: Counter,
    pub total_paged_kv_gather_extracts: Counter,
    pub total_paged_kv_gather_extract_layers: Counter,
    /// Time in gathers of all layers, one of keys and one of values per layer and step.
    pub total_paged_kv_gather_kernel_time_us: Counter,
    /// Time in copies of single rows after a gather.
    pub total_paged_kv_gather_per_row_time_us: Counter,
    /// Gathers repeated because the batch differed from the published one.
    pub total_paged_kv_gather_regathers: Counter,
    /// Batches set up from the published extract.
    pub total_paged_kv_batched_setup_hits: Counter,
    /// Batches set up from a fresh gather.
    pub total_paged_kv_batched_setup_regather: Counter,
    /// Time in batched setup.
    pub total_paged_kv_batched_setup_us: Counter,
    pub total_paged_kv_batched_setup_equal_length_layers: Counter,
    pub total_paged_kv_batched_setup_ragged_layers: Counter,
    pub total_paged_kv_batched_setup_ragged_rows: Counter,
    pub total_paged_kv_batched_setup_pending_batch_mismatch: Counter,
    pub total_paged_kv_batched_setup_pending_token_mismatch: Counter,
    pub total_paged_kv_batched_setup_fallback_per_seq_cache: Counter,
    pub total_paged_kv_batched_setup_fallback_regather_unavailable: Counter,
    pub total_paged_kv_batched_setup_fallback_regather_error: Counter,
    pub total_paged_kv_attention_contexts: Counter,
    pub total_paged_kv_attention_decode_calls: Counter,
    pub total_paged_kv_attention_decode_tokens: Counter,
    pub total_paged_kv_attention_layer_hits: Counter,
    pub total_paged_kv_attention_layer_fallbacks: Counter,
    pub total_paged_kv_attention_fallbacks: Counter,
    pub total_cuda_graph_decode_rounds: Counter,
    pub total_cuda_graph_decode_eligible_rounds: Counter,
    pub total_cuda_graph_decode_capture_attempts: Counter,
    pub total_cuda_graph_decode_capture_successes: Counter,
    pub total_cuda_graph_decode_capture_failures: Counter,
    pub total_cuda_graph_decode_replay_calls: Counter,
    pub total_cuda_graph_decode_replay_tokens: Counter,
    pub total_cuda_graph_decode_fallbacks: Counter,
    pub total_cuda_graph_decode_fallback_tokens: Counter,
    pub total_cuda_graph_decode_miss_no_bucket: Counter,
    pub total_cuda_graph_decode_miss_mask: Counter,
    pub total_cuda_graph_decode_miss_paged_attention: Counter,
    pub total_cuda_graph_decode_miss_dynamic_kv: Counter,
    pub total_cuda_graph_decode_miss_device: Counter,
    pub paged_kv_block_size: Counter,
    pub paged_kv_live_pages: Counter,
    pub paged_kv_free_pages: Counter,
    pub paged_kv_live_tokens: Counter,
    pub paged_kv_reserved_tokens: Counter,
    pub paged_kv_fragment_tokens: Counter,
    pub paged_kv_reserved_bytes: Counter,
    pub paged_kv_gpu_capacity_pages: Counter,
    pub paged_kv_gpu_capacity_bytes: Counter,
    pub paged_kv_total_alloc_pages: Counter,
    pub paged_kv_total_reused_pages: Counter,
    pub paged_kv_total_freed_pages: Counter,
    pub tracked_kv_cache_bytes: Counter,
    pub gpu_memory_used_bytes: Counter,
    pub gpu_memory_total_bytes: Counter,
    /// Times that the engine waited for more requests before a batch.
    pub total_sched_wait_calls: Counter,
    /// Requests that arrived during such waits.
    pub total_sched_wait_arrivals: Counter,
    /// Time spent in such waits.
    pub total_sched_wait_time_us: Counter,
    /// Waits that ended because enough requests had arrived.
    pub total_sched_wait_target_hits: Counter,
}

/// Engine counters at one moment, with averages.
#[derive(Debug, Clone, Copy, PartialEq, Eq, Structural)]
pub struct StatsSnapshot {
    pub total_requests: u64,
    pub completed_requests: u64,
    pub cancelled_requests: u64,
    pub failed_requests: u64,
    pub total_prompt_tokens: u64,
    pub total_completion_tokens: u64,
    pub active_sequences: u64,
    pub waiting_sequences: u64,
    pub total_kv_swaps: u64,
    pub avg_decode_tokens_per_sec: Ratio,
    pub avg_prefill_tokens_per_sec: Ratio,
    pub total_queue_wait_time_us: u64,
    pub total_time_to_first_token_us: u64,
    pub total_prefill_steps: u64,
    pub total_prefill_forward_time_us: u64,
    pub total_prefill_sampling_time_us: u64,
    pub total_prefill_swap_time_us: u64,
    pub total_prefix_cache_lookups: u64,
    pub total_prefix_cache_hits: u64,
    pub total_prefix_cache_hit_tokens: u64,
    pub total_prefix_cache_inserts: u64,
    pub total_prefix_cache_insert_tokens: u64,
    pub total_prefix_cache_insert_time_us: u64,
    pub prefix_cache_entries: u64,
    pub prefix_cache_bytes: u64,
    pub avg_queue_wait_ms: Ratio,
    pub avg_time_to_first_token_ms: Ratio,
    pub avg_prefill_step_ms: Ratio,
    pub avg_prefill_forward_ms: Ratio,
    pub avg_prefill_sampling_ms: Ratio,
    pub avg_prefill_swap_ms: Ratio,
    pub total_batch_decode_calls: u64,
    pub total_batch_decode_tokens: u64,
    pub total_batch_decode_time_us: u64,
    pub total_batch_decode_setup_time_us: u64,
    pub total_batch_decode_setup_kv_len_scan_time_us: u64,
    pub total_batch_decode_setup_pad_stack_time_us: u64,
    pub total_batch_decode_setup_contiguous_time_us: u64,
    pub total_batch_decode_setup_extra_room_time_us: u64,
    pub total_batch_decode_setup_cache_assign_time_us: u64,
    pub total_batch_decode_mask_time_us: u64,
    pub total_batch_decode_forward_time_us: u64,
    pub total_batch_decode_sampling_time_us: u64,
    pub total_batch_decode_extract_time_us: u64,
    pub total_batch_decode_extract_narrow_time_us: u64,
    pub total_batch_decode_extract_contiguous_time_us: u64,
    pub total_batch_decode_extract_cache_clear_time_us: u64,
    pub total_batch_decode_extract_state_replace_time_us: u64,
    pub total_batch_decode_device_token_input_hits: u64,
    pub total_batch_decode_device_token_input_tokens: u64,
    pub avg_batch_decode_step_ms: Ratio,
    pub avg_batch_decode_setup_ms: Ratio,
    pub avg_batch_decode_setup_kv_len_scan_ms: Ratio,
    pub avg_batch_decode_setup_pad_stack_ms: Ratio,
    pub avg_batch_decode_setup_contiguous_ms: Ratio,
    pub avg_batch_decode_setup_extra_room_ms: Ratio,
    pub avg_batch_decode_setup_cache_assign_ms: Ratio,
    pub avg_batch_decode_mask_ms: Ratio,
    pub avg_batch_decode_forward_ms: Ratio,
    pub avg_batch_decode_extract_ms: Ratio,
    pub avg_batch_decode_extract_narrow_ms: Ratio,
    pub avg_batch_decode_extract_contiguous_ms: Ratio,
    pub avg_batch_decode_extract_cache_clear_ms: Ratio,
    pub avg_batch_decode_extract_state_replace_ms: Ratio,
    pub avg_batch_decode_sampling_us_per_token: Ratio,
    pub total_sequential_decode_calls: u64,
    pub total_sequential_decode_tokens: u64,
    pub total_sequential_decode_time_us: u64,
    pub total_sequential_decode_forward_time_us: u64,
    pub total_sequential_decode_sampling_time_us: u64,
    pub total_sampling_batch_greedy_calls: u64,
    pub total_sampling_batch_greedy_tokens: u64,
    pub total_sampling_batch_greedy_fallbacks: u64,
    pub total_sampling_batch_greedy_cuda_plain_calls: u64,
    pub total_sampling_batch_greedy_cuda_plain_tokens: u64,
    pub total_sampling_batch_greedy_cuda_penalty_calls: u64,
    pub total_sampling_batch_greedy_cuda_penalty_tokens: u64,
    pub total_sampling_batch_greedy_tensor_fallback_calls: u64,
    pub total_sampling_batch_greedy_tensor_fallback_tokens: u64,
    pub total_sampling_batch_non_greedy_calls: u64,
    pub total_sampling_batch_non_greedy_tokens: u64,
    pub total_sampling_batch_non_greedy_cuda_bf16_calls: u64,
    pub total_sampling_batch_non_greedy_cuda_bf16_tokens: u64,
    pub total_sampling_batch_non_greedy_fallback_calls: u64,
    pub total_sampling_batch_non_greedy_fallback_tokens: u64,
    pub total_sampling_row_greedy_tokens: u64,
    pub total_sampling_non_greedy_tokens: u64,
    pub total_sampling_failures: u64,
    pub total_paged_kv_metadata_syncs: u64,
    pub total_paged_kv_new_pages: u64,
    pub total_paged_kv_reused_pages: u64,
    pub total_paged_kv_released_pages: u64,
    pub total_paged_kv_compactions: u64,
    pub total_paged_kv_compacted_pages: u64,
    pub total_paged_kv_idle_resets: u64,
    pub total_paged_kv_idle_reset_pages: u64,
    pub total_paged_kv_pressure_skips: u64,
    pub total_paged_kv_pressure_released_pages: u64,
    pub total_paged_kv_gather_extracts: u64,
    pub total_paged_kv_gather_extract_layers: u64,
    pub total_paged_kv_gather_kernel_time_us: u64,
    pub total_paged_kv_gather_per_row_time_us: u64,
    pub total_paged_kv_gather_regathers: u64,
    pub total_paged_kv_batched_setup_hits: u64,
    pub total_paged_kv_batched_setup_regather: u64,
    pub total_paged_kv_batched_setup_us: u64,
    pub total_paged_kv_batched_setup_equal_length_layers: u64,
    pub total_paged_kv_batched_setup_ragged_layers: u64,
    pub total_paged_kv_batched_setup_ragged_rows: u64,
    pub total_paged_kv_batched_setup_pending_batch_mismatch: u64,
    pub total_paged_kv_batched_setup_pending_token_mismatch: u64,
    pub total_paged_kv_batched_setup_fallback_per_seq_cache: u64,
    pub total_paged_kv_batched_setup_fallback_regather_unavailable: u64,
    pub total_paged_kv_batched_setup_fallback_regather_error: u64,
    pub total_paged_kv_attention_contexts: u64,
    pub total_paged_kv_attention_decode_calls: u64,
    pub total_paged_kv_attention_decode_tokens: u64,
    pub total_paged_kv_attention_layer_hits: u64,
    pub total_paged_kv_attention_layer_fallbacks: u64,
    pub total_paged_kv_attention_fallbacks: u64,
    pub total_cuda_graph_decode_rounds: u64,
    pub total_cuda_graph_decode_eligible_rounds: u64,
    pub total_cuda_graph_decode_capture_attempts: u64,
    pub total_cuda_graph_decode_capture_successes: u64,
    pub total_cuda_graph_decode_capture_failures: u64,
    pub total_cuda_graph_decode_replay_calls: u64,
    pub total_cuda_graph_decode_replay_tokens: u64,
    pub total_cuda_graph_decode_fallbacks: u64,
    pub total_cuda_graph_decode_fallback_tokens: u64,
    pub total_cuda_graph_decode_miss_no_bucket: u64,
    pub total_cuda_graph_decode_miss_mask: u64,
    pub total_cuda_graph_decode_miss_paged_attention: u64,
    pub total_cuda_graph_decode_miss_dynamic_kv: u64,
    pub total_cuda_graph_decode_miss_device: u64,
    pub paged_kv_block_size: u64,
    pub paged_kv_live_pages: u64,
    pub paged_kv_free_pages: u64,
    pub paged_kv_live_tokens: u64,
    pub paged_kv_reserved_tokens: u64,
    pub paged_kv_fragment_tokens: u64,
    pub paged_kv_reserved_bytes: u64,
    pub paged_kv_gpu_capacity_pages: u64,
    pub paged_kv_gpu_capacity_bytes: u64,
    pub paged_kv_total_alloc_pages: u64,
    pub paged_kv_total_reused_pages: u64,
    pub paged_kv_total_freed_pages: u64,
    pub avg_sequential_decode_step_ms: Ratio,
    pub avg_sequential_decode_forward_ms: Ratio,
    pub avg_sequential_decode_sampling_us_per_token: Ratio,
    pub tracked_kv_cache_bytes: u64,
    pub gpu_memory_used_bytes: u64,
    pub gpu_memory_total_bytes: u64,
    pub total_sched_wait_calls: u64,
    pub total_sched_wait_arrivals: u64,
    pub total_sched_wait_time_us: u64,
    pub total_sched_wait_target_hits: u64,
}

impl EngineStats {
    /// Every counter is zero.
    pub open spec fn all_zero(&self) -> bool {
        &&& self.total_requests.value == 0
        &&& self.completed_requests.value == 0
        &&& self.cancelled_requests.value == 0
        &&& self.failed_requests.value == 0
        &&& self.total_prompt_tokens.value == 0
        &&& self.total_completion_tokens.value == 0
        &&& self.total_prefill_time_us.value == 0
        &&& self.total_decode_steps.value == 0
        &&& self.total_decode_time_us.value == 0
        &&& self.total_kv_swap_count.value == 0
        &&& self.active_sequences.value == 0
        &&& self.waiting_sequences.value == 0
        &&& self.total_queue_wait_time_us.value == 0
        &&& self.total_time_to_first_token_us.value == 0
        &&& self.total_prefill_steps.value == 0
        &&& self.total_prefill_forward_time_us.value == 0
        &&& self.total_prefill_sampling_time_us.value == 0
        &&& self.total_prefill_swap_time_us.value == 0
        &&& self.total_prefix_cache_lookups.value == 0
        &&& self.total_prefix_cache_hits.value == 0
        &&& self.total_prefix_cache_hit_tokens.value == 0
        &&& self.total_prefix_cache_inserts.value == 0
        &&& self.total_prefix_cache_insert_tokens.value == 0
        &&& self.total_prefix_cache_insert_time_us.value == 0
        &&& self.prefix_cache_entries.value == 0
        &&& self.prefix_cache_bytes.value == 0
        &&& self.total_batch_decode_calls.value == 0
        &&& self.total_batch_decode_tokens.value == 0
        &&& self.total_batch_decode_time_us.value == 0
        &&& self.total_batch_decode_setup_time_us.value == 0
        &&& self.total_batch_decode_setup_kv_len_scan_time_us.value == 0
        &&& self.total_batch_decode_setup_pad_stack_time_us.value == 0
        &&& self.total_batch_decode_setup_contiguous_time_us.value == 0
        &&& self.total_batch_decode_setup_extra_room_time_us.value == 0
        &&& self.total_batch_decode_setup_cache_assign_time_us.value == 0
        &&& self.total_batch_decode_mask_time_us.value == 0
        &&& self.total_batch_decode_forward_time_us.value == 0
        &&& self.total_batch_decode_sampling_time_us.value == 0
        &&& self.total_batch_decode_extract_time_us.value == 0
        &&& self.total_batch_decode_extract_narrow_time_us.value == 0
        &&& self.total_batch_decode_extract_contiguous_time_us.value == 0
        &&& self.total_batch_decode_extract_cache_clear_time_us.value == 0
        &&& self.total_batch_decode_extract_state_replace_time_us.value == 0
        &&& self.total_batch_decode_device_token_input_hits.value == 0
        &&& self.total_batch_decode_device_token_input_tokens.value == 0
        &&& self.total_sequential_decode_calls.value == 0
        &&& self.total_sequential_decode_tokens.value == 0
        &&& self.total_sequential_decode_time_us.value == 0
        &&& self.total_sequential_decode_forward_time_us.value == 0
        &&& self.total_sequential_decode_sampling_time_us.value == 0
        &&& self.total_sampling_batch_greedy_calls.value == 0
        &&& self.total_sampling_batch_greedy_tokens.value == 0
        &&& self.total_sampling_batch_greedy_fallbacks.value == 0
        &&& self.total_sampling_batch_greedy_cuda_plain_calls.value == 0
        &&& self.total_sampling_batch_greedy_cuda_plain_tokens.value == 0
        &&& self.total_sampling_batch_greedy_cuda_penalty_calls.value == 0
        &&& self.total_sampling_batch_greedy_cuda_penalty_tokens.value == 0
        &&& self.total_sampling_batch_greedy_tensor_fallback_calls.value == 0
        &&& self.total_sampling_batch_greedy_tensor_fallback_tokens.value == 0
        &&& self.total_sampling_batch_non_greedy_calls.value == 0
        &&& self.total_sampling_batch_non_greedy_tokens.value == 0
        &&& self.total_sampling_batch_non_greedy_cuda_bf16_calls.value == 0
        &&& self.total_sampling_batch_non_greedy_cuda_bf16_tokens.value == 0
        &&& self.total_sampling_batch_non_greedy_fallback_calls.value == 0
        &&& self.total_sampling_batch_non_greedy_fallback_tokens.value == 0
        &&& self.total_sampling_row_greedy_tokens.value == 0
        &&& self.total_sampling_non_greedy_tokens.value == 0
        &&& self.total_sampling_failures.value == 0
        &&& self.total_paged_kv_metadata_syncs.value == 0
        &&& self.total_paged_kv_new_pages.value == 0
        &&& self.total_paged_kv_reused_pages.value == 0
        &&& self.total_paged_kv_released_pages.value == 0
        &&& self.total_paged_kv_compactions.value == 0
        &&& self.total_paged_kv_compacted_pages.value == 0
        &&& self.total_paged_kv_idle_resets.value == 0
        &&& self.total_paged_kv_idle_reset_pages.value == 0
        &&& self.total_paged_kv_pressure_skips.value == 0
        &&& self.total_paged_kv_pressure_released_pages.value == 0
        &&& self.total_paged_kv_gather_extracts.value == 0
        &&& self.total_paged_kv_gather_extract_layers.value == 0
        &&& self.total_paged_kv_gather_kernel_time_us.value == 0
        &&& self.total_paged_kv_gather_per_row_time_us.value == 0
        &&& self.total_paged_kv_gather_regathers.value == 0
        &&& self.total_paged_kv_batched_setup_hits.value == 0
        &&& self.total_paged_kv_batched_setup_regather.value == 0
        &&& self.total_paged_kv_batched_setup_us.value == 0
        &&& self.total_paged_kv_batched_setup_equal_length_layers.value == 0
        &&& self.total_paged_kv_batched_setup_ragged_layers.value == 0
        &&& self.total_paged_kv_batched_setup_ragged_rows.value == 0
        &&& self.total_paged_kv_batched_setup_pending_batch_mismatch.value == 0
        &&& self.total_paged_kv_batched_setup_pending_token_mismatch.value == 0
        &&& self.total_paged_kv_batched_setup_fallback_per_seq_cache.value == 0
        &&& self.total_paged_kv_batched_setup_fallback_regather_unavailable.value == 0
        &&& self.total_paged_kv_batched_setup_fallback_regather_error.value == 0
        &&& self.total_paged_kv_attention_contexts.value == 0
        &&& self.total_paged_kv_attention_decode_calls.value == 0
        &&& self.total_paged_kv_attention_decode_tokens.value == 0
        &&& self.total_paged_kv_attention_layer_hits.value == 0
        &&& self.total_paged_kv_attention_layer_fallbacks.value == 0
        &&& self.total_paged_kv_attention_fallbacks.value == 0
        &&& self.total_cuda_graph_decode_rounds.value == 0
        &&& self.total_cuda_graph_decode_eligible_rounds.value == 0
        &&& self.total_cuda_graph_decode_capture_attempts.value == 0
        &&& self.total_cuda_graph_decode_capture_successes.value == 0
        &&& self.total_cuda_graph_decode_capture_failures.value == 0
        &&& self.total_cuda_graph_decode_replay_calls.value == 0
        &&& self.total_cuda_graph_decode_replay_tokens.value == 0
        &&& self.total_cuda_graph_decode_fallbacks.value == 0
        &&& self.total_cuda_graph_decode_fallback_tokens.value == 0
        &&& self.total_cuda_graph_decode_miss_no_bucket.value == 0
        &&& self.total_cuda_graph_decode_miss_mask.value == 0
        &&& self.total_cuda_graph_decode_miss_paged_attention.value == 0
        &&& self.total_cuda_graph_decode_miss_dynamic_kv.value == 0
        &&& self.total_cuda_graph_decode_miss_device.value == 0
        &&& self.paged_kv_block_size.value == 0
        &&& self.paged_kv_live_pages.value == 0
        &&& self.paged_kv_free_pages.value == 0
        &&& self.paged_kv_live_tokens.value == 0
        &&& self.paged_kv_reserved_tokens.value == 0
        &&& self.paged_kv_fragment_tokens.value == 0
        &&& self.paged_kv_reserved_bytes.value == 0
        &&& self.paged_kv_gpu_capacity_pages.value == 0
        &&& self.paged_kv_gpu_capacity_bytes.value == 0
        &&& self.paged_kv_total_alloc_pages.value == 0
        &&& self.paged_kv_total_reused_pages.value == 0
        &&& self.paged_kv_total_freed_pages.value == 0
        &&& self.tracked_kv_cache_bytes.value == 0
        &&& self.gpu_memory_used_bytes.value == 0
        &&& self.gpu_memory_total_bytes.value == 0
        &&& self.total_sched_wait_calls.value == 0
        &&& self.total_sched_wait_arrivals.value == 0
        &&& self.total_sched_wait_time_us.value == 0
        &&& self.total_sched_wait_target_hits.value == 0
    }

    pub fn new() -> (result: Self)
        ensures
            result.all_zero(),
    {
        EngineStats {
            total_requests: Counter::new(0),
            completed_requests: Counter::new(0),
            cancelled_requests: Counter::new(0),
            failed_requests: Counter::new(0),
            total_prompt_tokens: Counter::new(0),
            total_completion_tokens: Counter::new(0),
            total_prefill_time_us: Counter::new(0),
            total_decode_steps: Counter::new(0),
            total_decode_time_us: Counter::new(0),
            total_kv_swap_count: Counter::new(0),
            active_sequences: Counter::new(0),
            waiting_sequences: Counter::new(0),
            total_queue_wait_time_us: Counter::new(0),
            total_time_to_first_token_us: Counter::new(0),
            total_prefill_steps: Counter::new(0),
            total_prefill_forward_time_us: Counter::new(0),
            total_prefill_sampling_time_us: Counter::new(0),
            total_prefill_swap_time_us: Counter::new(0),
            total_prefix_cache_lookups: Counter::new(0),
            total_prefix_cache_hits: Counter::new(0),
            total_prefix_cache_hit_tokens: Counter::new(0),
            total_prefix_cache_inserts: Counter::new(0),
            total_prefix_cache_insert_tokens: Counter::new(0),
            total_prefix_cache_insert_time_us: Counter::new(0),
            prefix_cache_entries: Counter::new(0),
            prefix_cache_bytes: Counter::new(0),
            total_batch_decode_calls: Counter::new(0),
            total_batch_decode_tokens: Counter::new(0),
            total_batch_decode_time_us: Counter::new(0),
            total_batch_decode_setup_time_us: Counter::new(0),
            total_batch_decode_setup_kv_len_scan_time_us: Counter::new(0),
            total_batch_decode_setup_pad_stack_time_us: Counter::new(0),
            total_batch_decode_setup_contiguous_time_us: Counter::new(0),
            total_batch_decode_setup_extra_room_time_us: Counter::new(0),
            total_batch_decode_setup_cache_assign_time_us: Counter::new(0),
            total_batch_decode_mask_time_us: Counter::new(0),
            total_batch_decode_forward_time_us: Counter::new(0),
            total_batch_decode_sampling_time_us: Counter::new(0),
            total_batch_decode_extract_time_us: Counter::new(0),
            total_batch_decode_extract_narrow_time_us: Counter::new(0),
            total_batch_decode_extract_contiguous_time_us: Counter::new(0),
            total_batch_decode_extract_cache_clear_time_us: Counter::new(0),
            total_batch_decode_extract_state_replace_time_us: Counter::new(0),
            total_batch_decode_device_token_input_hits: Counter::new(0),
            total_batch_decode_device_token_input_tokens: Counter::new(0),
            total_sequential_decode_calls: Counter::new(0),
            total_sequential_decode_tokens: Counter::new(0),
            total_sequential_decode_time_us: Counter::new(0),
            total_sequential_decode_forward_time_us: Counter::new(0),
            total_sequential_decode_sampling_time_us: Counter::new(0),
            total_sampling_batch_greedy_calls: Counter::new(0),
            total_sampling_batch_greedy_tokens: Counter::new(0),
            total_sampling_batch_greedy_fallbacks: Counter::new(0),
            total_sampling_batch_greedy_cuda_plain_calls: Counter::new(0),
            total_sampling_batch_greedy_cuda_plain_tokens: Counter::new(0),
            total_sampling_batch_greedy_cuda_penalty_calls: Counter::new(0),
            total_sampling_batch_greedy_cuda_penalty_tokens: Counter::new(0),
            total_sampling_batch_greedy_tensor_fallback_calls: Counter::new(0),
            total_sampling_batch_greedy_tensor_fallback_tokens: Counter::new(0),
            total_sampling_batch_non_greedy_calls: Counter::new(0),
            total_sampling_batch_non_greedy_tokens: Counter::new(0),
            total_sampling_batch_non_greedy_cuda_bf16_calls: Counter::new(0),
            total_sampling_batch_non_greedy_cuda_bf16_tokens: Counter::new(0),
            total_sampling_batch_non_greedy_fallback_calls: Counter::new(0),
            total_sampling_batch_non_greedy_fallback_tokens: Counter::new(0),
            total_sampling_row_greedy_tokens: Counter::new(0),
            total_sampling_non_greedy_tokens: Counter::new(0),
            total_sampling_failures: Counter::new(0),
            total_paged_kv_metadata_syncs: Counter::new(0),
            total_paged_kv_new_pages: Counter::new(0),
            total_paged_kv_reused_pages: Counter::new(0),
            total_paged_kv_released_pages: Counter::new(0),
            total_paged_kv_compactions: Counter::new(0),
            total_paged_kv_compacted_pages: Counter::new(0),
            total_paged_kv_idle_resets: Counter::new(0),
            total_paged_kv_idle_reset_pages: Counter::new(0),
            total_paged_kv_pressure_skips: Counter::new(0),
            total_paged_kv_pressure_released_pages: Counter::new(0),
            total_paged_kv_gather_extracts: Counter::new(0),
            total_paged_kv_gather_extract_layers: Counter::new(0),
            total_paged_kv_gather_kernel_time_us: Counter::new(0),
            total_paged_kv_gather_per_row_time_us: Counter::new(0),
            total_paged_kv_gather_regathers: Counter::new(0),
            total_paged_kv_batched_setup_hits: Counter::new(0),
            total_paged_kv_batched_setup_regather: Counter::new(0),
            total_paged_kv_batched_setup_us: Counter::new(0),
            total_paged_kv_batched_setup_equal_length_layers: Counter::new(0),
            total_paged_kv_batched_setup_ragged_layers: Counter::new(0),
            total_paged_kv_batched_setup_ragged_rows: Counter::new(0),
            total_paged_kv_batched_setup_pending_batch_mismatch: Counter::new(0),
            total_paged_kv_batched_setup_pending_token_mismatch: Counter::new(0),
            total_paged_kv_batched_setup_fallback_per_seq_cache: Counter::new(0),
            total_paged_kv_batched_setup_fallback_regather_unavailable: Counter::new(0),
            total_paged_kv_batched_setup_fallback_regather_error: Counter::new(0),
            total_paged_kv_attention_contexts: Counter::new(0),
            total_paged_kv_attention_decode_calls: Counter::new(0),
            total_paged_kv_attention_decode_tokens: Counter::new(0),
            total_paged_kv_attention_layer_hits: Counter::new(0),
            total_paged_kv_attention_layer_fallbacks: Counter::new(0),
            total_paged_kv_attention_fallbacks: Counter::new(0),
            total_cuda_graph_decode_rounds: Counter::new(0),
            total_cuda_graph_decode_eligible_rounds: Counter::new(0),
            total_cuda_graph_decode_capture_attempts: Counter::new(0),
            total_cuda_graph_decode_capture_successes: Counter::new(0),
            total_cuda_graph_decode_capture_failures: Counter::new(0),
            total_cuda_graph_decode_replay_calls: Counter::new(0),
            total_cuda_graph_decode_replay_tokens: Counter::new(0),
            total_cuda_graph_decode_fallbacks: Counter::new(0),
            total_cuda_graph_decode_fallback_tokens: Counter::new(0),
            total_cuda_graph_decode_miss_no_bucket: Counter::new(0),
            total_cuda_graph_decode_miss_mask: Counter::new(0),
            total_cuda_graph_decode_miss_paged_attention: Counter::new(0),
            total_cuda_graph_decode_miss_dynamic_kv: Counter::new(0),
            total_cuda_graph_decode_miss_device: Counter::new(0),
            paged_kv_block_size: Counter::new(0),
            paged_kv_live_pages: Counter::new(0),
            paged_kv_free_pages: Counter::new(0),
            paged_kv_live_tokens: Counter::new(0),
            paged_kv_reserved_tokens: Counter::new(0),
            paged_kv_fragment_tokens: Counter::new(0),
            paged_kv_reserved_bytes: Counter::new(0),
            paged_kv_gpu_capacity_pages: Counter::new(0),
            paged_kv_gpu_capacity_bytes: Counter::new(0),
            paged_kv_total_alloc_pages: Counter::new(0),
            paged_kv_total_reused_pages: Counter::new(0),
            paged_kv_total_freed_pages: Counter::new(0),
            tracked_kv_cache_bytes: Counter::new(0),
            gpu_memory_used_bytes: Counter::new(0),
            gpu_memory_total_bytes: Counter::new(0),
            total_sched_wait_calls: Counter::new(0),
            total_sched_wait_arrivals: Counter::new(0),
            total_sched_wait_time_us: Counter::new(0),
            total_sched_wait_target_hits: Counter::new(0),
        }
    }

    /// `snapshot` shows these counters and the averages over them.
    pub open spec fn shown_by(&self, snapshot: StatsSnapshot) -> bool {
        &&& snapshot.total_requests == self.total_requests.value
        &&& snapshot.completed_requests == self.completed_requests.value
        &&& snapshot.cancelled_requests == self.cancelled_requests.value
        &&& snapshot.failed_requests == self.failed_requests.value
        &&& snapshot.total_prompt_tokens == self.total_prompt_tokens.value
        &&& snapshot.total_completion_tokens == self.total_completion_tokens.value
        &&& snapshot.active_sequences == self.active_sequences.value
        &&& snapshot.waiting_sequences == self.waiting_sequences.value
        &&& snapshot.total_kv_swaps == self.total_kv_swap_count.value
        &&& snapshot.avg_decode_tokens_per_sec.is_quotient(
            self.total_decode_steps.value * 1_000_000,
            self.total_decode_time_us.value as int,
        )
        &&& snapshot.avg_prefill_tokens_per_sec.is_quotient(
            self.total_prompt_tokens.value * 1_000_000,
            self.total_prefill_time_us.value as int,
        )
        &&& snapshot.total_queue_wait_time_us == self.total_queue_wait_time_us.value
        &&& snapshot.total_time_to_first_token_us == self.total_time_to_first_token_us.value
        &&& snapshot.total_prefill_steps == self.total_prefill_steps.value
        &&& snapshot.total_prefill_forward_time_us == self.total_prefill_forward_time_us.value
        &&& snapshot.total_prefill_sampling_time_us == self.total_prefill_sampling_time_us.value
        &&& snapshot.total_prefill_swap_time_us == self.total_prefill_swap_time_us.value
        &&& snapshot.total_prefix_cache_lookups == self.total_prefix_cache_lookups.value
        &&& snapshot.total_prefix_cache_hits == self.total_prefix_cache_hits.value
        &&& snapshot.total_prefix_cache_hit_tokens == self.total_prefix_cache_hit_tokens.value
        &&& snapshot.total_prefix_cache_inserts == self.total_prefix_cache_inserts.value
        &&& snapshot.total_prefix_cache_insert_tokens == self.total_prefix_cache_insert_tokens.value
        &&& snapshot.total_prefix_cache_insert_time_us == self.total_prefix_cache_insert_time_us.value
        &&& snapshot.prefix_cache_entries == self.prefix_cache_entries.value
        &&& snapshot.prefix_cache_bytes == self.prefix_cache_bytes.value
        &&& snapshot.avg_queue_wait_ms.is_quotient(
            self.total_queue_wait_time_us.value as int,
            self.total_prefill_steps.value * 1000,
        )
        &&& snapshot.avg_time_to_first_token_ms.is_quotient(
            self.total_time_to_first_token_us.value as int,
            self.total_prefill_steps.value * 1000,
        )
        &&& snapshot.avg_prefill_step_ms.is_quotient(
            self.total_prefill_time_us.value as int,
            self.total_prefill_steps.value * 1000,
        )
        &&& snapshot.avg_prefill_forward_ms.is_quotient(
            self.total_prefill_forward_time_us.value as int,
            self.total_prefill_steps.value * 1000,
        )
        &&& snapshot.avg_prefill_sampling_ms.is_quotient(
            self.total_prefill_sampling_time_us.value as int,
            self.total_prefill_steps.value * 1000,
        )
        &&& snapshot.avg_prefill_swap_ms.is_quotient(
            self.total_prefill_swap_time_us.value as int,
            self.total_prefill_steps.value * 1000,
        )
        &&& snapshot.total_batch_decode_calls == self.total_batch_decode_calls.value
        &&& snapshot.total_batch_decode_tokens == self.total_batch_decode_tokens.value
        &&& snapshot.total_batch_decode_time_us == self.total_batch_decode_time_us.value
        &&& snapshot.total_batch_decode_setup_time_us == self.total_batch_decode_setup_time_us.value
        &&& snapshot.total_batch_decode_setup_kv_len_scan_time_us == self.total_batch_decode_setup_kv_len_scan_time_us.value
        &&& snapshot.total_batch_decode_setup_pad_stack_time_us == self.total_batch_decode_setup_pad_stack_time_us.value
        &&& snapshot.total_batch_decode_setup_contiguous_time_us == self.total_batch_decode_setup_contiguous_time_us.value
        &&& snapshot.total_batch_decode_setup_extra_room_time_us == self.total_batch_decode_setup_extra_room_time_us.value
        &&& snapshot.total_batch_decode_setup_cache_assign_time_us == self.total_batch_decode_setup_cache_assign_time_us.value
        &&& snapshot.total_batch_decode_mask_time_us == self.total_batch_decode_mask_time_us.value
        &&& snapshot.total_batch_decode_forward_time_us == self.total_batch_decode_forward_time_us.value
        &&& snapshot.total_batch_decode_sampling_time_us == self.total_batch_decode_sampling_time_us.value
        &&& snapshot.total_batch_decode_extract_time_us == self.total_batch_decode_extract_time_us.value
        &&& snapshot.total_batch_decode_extract_narrow_time_us == self.total_batch_decode_extract_narrow_time_us.value
        &&& snapshot.total_batch_decode_extract_contiguous_time_us == self.total_batch_decode_extract_contiguous_time_us.value
        &&& snapshot.total_batch_decode_extract_cache_clear_time_us == self.total_batch_decode_extract_cache_clear_time_us.value
        &&& snapshot.total_batch_decode_extract_state_replace_time_us == self.total_batch_decode_extract_state_replace_time_us.value
        &&& snapshot.total_batch_decode_device_token_input_hits == self.total_batch_decode_device_token_input_hits.value
        &&& snapshot.total_batch_decode_device_token_input_tokens == self.total_batch_decode_device_token_input_tokens.value
        &&& snapshot.avg_batch_decode_step_ms.is_quotient(
            self.total_batch_decode_time_us.value as int,
            self.total_batch_decode_calls.value * 1000,
        )
        &&& snapshot.avg_batch_decode_setup_ms.is_quotient(
            self.total_batch_decode_setup_time_us.value as int,
            self.total_batch_decode_calls.value * 1000,
        )
        &&& snapshot.avg_batch_decode_setup_kv_len_scan_ms.is_quotient(
            self.total_batch_decode_setup_kv_len_scan_time_us.value as int,
            self.total_batch_decode_calls.value * 1000,
        )
        &&& snapshot.avg_batch_decode_setup_pad_stack_ms.is_quotient(
            self.total_batch_decode_setup_pad_stack_time_us.value as int,
            self.total_batch_decode_calls.value * 1000,
        )
        &&& snapshot.avg_batch_decode_setup_contiguous_ms.is_quotient(
            self.total_batch_decode_setup_contiguous_time_us.value as int,
            self.total_batch_decode_calls.value * 1000,
        )
        &&& snapshot.avg_batch_decode_setup_extra_room_ms.is_quotient(
            self.total_batch_decode_setup_extra_room_time_us.value as int,
            self.total_batch_decode_calls.value * 1000,
        )
        &&& snapshot.avg_batch_decode_setup_cache_assign_ms.is_quotient(
            self.total_batch_decode_setup_cache_assign_time_us.value as int,
            self.total_batch_decode_calls.value * 1000,
        )
        &&& snapshot.avg_batch_decode_mask_ms.is_quotient(
            self.total_batch_decode_mask_time_us.value as int,
            self.total_batch_decode_calls.value * 1000,
        )
        &&& snapshot.avg_batch_decode_forward_ms.is_quotient(
            self.total_batch_decode_forward_time_us.value as int,
            self.total_batch_decode_calls.value * 1000,
        )
        &&& snapshot.avg_batch_decode_extract_ms.is_quotient(
            self.total_batch_decode_extract_time_us.value as int,
            self.total_batch_decode_calls.value * 1000,
        )
        &&& snapshot.avg_batch_decode_extract_narrow_ms.is_quotient(
            self.total_batch_decode_extract_narrow_time_us.value as int,
            self.total_batch_decode_calls.value * 1000,
        )
        &&& snapshot.avg_batch_decode_extract_contiguous_ms.is_quotient(
            self.total_batch_decode_extract_contiguous_time_us.value as int,
            self.total_batch_decode_calls.value * 1000,
        )
        &&& snapshot.avg_batch_decode_extract_cache_clear_ms.is_quotient(
            self.total_batch_decode_extract_cache_clear_time_us.value as int,
            self.total_batch_decode_calls.value * 1000,
        )
        &&& snapshot.avg_batch_decode_extract_state_replace_ms.is_quotient(
            self.total_batch_decode_extract_state_replace_time_us.value as int,
            self.total_batch_decode_calls.value * 1000,
        )
        &&& snapshot.avg_batch_decode_sampling_us_per_token.is_quotient(
            self.total_batch_decode_sampling_time_us.value as int,
            self.total_batch_decode_tokens.value as int,
        )
        &&& snapshot.total_sequential_decode_calls == self.total_sequential_decode_calls.value
        &&& snapshot.total_sequential_decode_tokens == self.total_sequential_decode_tokens.value
        &&& snapshot.total_sequential_decode_time_us == self.total_sequential_decode_time_us.value
        &&& snapshot.total_sequential_decode_forward_time_us == self.total_sequential_decode_forward_time_us.value
        &&& snapshot.total_sequential_decode_sampling_time_us == self.total_sequential_decode_sampling_time_us.value
        &&& snapshot.total_sampling_batch_greedy_calls == self.total_sampling_batch_greedy_calls.value
        &&& snapshot.total_sampling_batch_greedy_tokens == self.total_sampling_batch_greedy_tokens.value
        &&& snapshot.total_sampling_batch_greedy_fallbacks == self.total_sampling_batch_greedy_fallbacks.value
        &&& snapshot.total_sampling_batch_greedy_cuda_plain_calls == self.total_sampling_batch_greedy_cuda_plain_calls.value
        &&& snapshot.total_sampling_batch_greedy_cuda_plain_tokens == self.total_sampling_batch_greedy_cuda_plain_tokens.value
        &&& snapshot.total_sampling_batch_greedy_cuda_penalty_calls == self.total_sampling_batch_greedy_cuda_penalty_calls.value
        &&& snapshot.total_sampling_batch_greedy_cuda_penalty_tokens == self.total_sampling_batch_greedy_cuda_penalty_tokens.value
        &&& snapshot.total_sampling_batch_greedy_tensor_fallback_calls == self.total_sampling_batch_greedy_tensor_fallback_calls.value
        &&& snapshot.total_sampling_batch_greedy_tensor_fallback_tokens == self.total_sampling_batch_greedy_tensor_fallback_tokens.value
        &&& snapshot.total_sampling_batch_non_greedy_calls == self.total_sampling_batch_non_greedy_calls.value
        &&& snapshot.total_sampling_batch_non_greedy_tokens == self.total_sampling_batch_non_greedy_tokens.value
        &&& snapshot.total_sampling_batch_non_greedy_cuda_bf16_calls == self.total_sampling_batch_non_greedy_cuda_bf16_calls.value
        &&& snapshot.total_sampling_batch_non_greedy_cuda_bf16_tokens == self.total_sampling_batch_non_greedy_cuda_bf16_tokens.value
        &&& snapshot.total_sampling_batch_non_greedy_fallback_calls == self.total_sampling_batch_non_greedy_fallback_calls.value
        &&& snapshot.total_sampling_batch_non_greedy_fallback_tokens == self.total_sampling_batch_non_greedy_fallback_tokens.value
        &&& snapshot.total_sampling_row_greedy_tokens == self.total_sampling_row_greedy_tokens.value
        &&& snapshot.total_sampling_non_greedy_tokens == self.total_sampling_non_greedy_tokens.value
        &&& snapshot.total_sampling_failures == self.total_sampling_failures.value
        &&& snapshot.total_paged_kv_metadata_syncs == self.total_paged_kv_metadata_syncs.value
        &&& snapshot.total_paged_kv_new_pages == self.total_paged_kv_new_pages.value
        &&& snapshot.total_paged_kv_reused_pages == self.total_paged_kv_reused_pages.value
        &&& snapshot.total_paged_kv_released_pages == self.total_paged_kv_released_pages.value
        &&& snapshot.total_paged_kv_compactions == self.total_paged_kv_compactions.value
        &&& snapshot.total_paged_kv_compacted_pages == self.total_paged_kv_compacted_pages.value
        &&& snapshot.total_paged_kv_idle_resets == self.total_paged_kv_idle_resets.value
        &&& snapshot.total_paged_kv_idle_reset_pages == self.total_paged_kv_idle_reset_pages.value
        &&& snapshot.total_paged_kv_pressure_skips == self.total_paged_kv_pressure_skips.value
        &&& snapshot.total_paged_kv_pressure_released_pages == self.total_paged_kv_pressure_released_pages.value
        &&& snapshot.total_paged_kv_gather_extracts == self.total_paged_kv_gather_extracts.value
        &&& snapshot.total_paged_kv_gather_extract_layers == self.total_paged_kv_gather_extract_layers.value
        &&& snapshot.total_paged_kv_gather_kernel_time_us == self.total_paged_kv_gather_kernel_time_us.value
        &&& snapshot.total_paged_kv_gather_per_row_time_us == self.total_paged_kv_gather_per_row_time_us.value
        &&& snapshot.total_paged_kv_gather_regathers == self.total_paged_kv_gather_regathers.value
        &&& snapshot.total_paged_kv_batched_setup_hits == self.total_paged_kv_batched_setup_hits.value
        &&& snapshot.total_paged_kv_batched_setup_regather == self.total_paged_kv_batched_setup_regather.value
        &&& snapshot.total_paged_kv_batched_setup_us == self.total_paged_kv_batched_setup_us.value
        &&& snapshot.total_paged_kv_batched_setup_equal_length_layers == self.total_paged_kv_batched_setup_equal_length_layers.value
        &&& snapshot.total_paged_kv_batched_setup_ragged_layers == self.total_paged_kv_batched_setup_ragged_layers.value
        &&& snapshot.total_paged_kv_batched_setup_ragged_rows == self.total_paged_kv_batched_setup_ragged_rows.value
        &&& snapshot.total_paged_kv_batched_setup_pending_batch_mismatch == self.total_paged_kv_batched_setup_pending_batch_mismatch.value
        &&& snapshot.total_paged_kv_batched_setup_pending_token_mismatch == self.total_paged_kv_batched_setup_pending_token_mismatch.value
        &&& snapshot.total_paged_kv_batched_setup_fallback_per_seq_cache == self.total_paged_kv_batched_setup_fallback_per_seq_cache.value
        &&& snapshot.total_paged_kv_batched_setup_fallback_regather_unavailable == self.total_paged_kv_batched_setup_fallback_regather_unavailable.value
        &&& snapshot.total_paged_kv_batched_setup_fallback_regather_error == self.total_paged_kv_batched_setup_fallback_regather_error.value
        &&& snapshot.total_paged_kv_attention_contexts == self.total_paged_kv_attention_contexts.value
        &&& snapshot.total_paged_kv_attention_decode_calls == self.total_paged_kv_attention_decode_calls.value
        &&& snapshot.total_paged_kv_attention_decode_tokens == self.total_paged_kv_attention_decode_tokens.value
        &&& snapshot.total_paged_kv_attention_layer_hits == self.total_paged_kv_attention_layer_hits.value
        &&& snapshot.total_paged_kv_attention_layer_fallbacks == self.total_paged_kv_attention_layer_fallbacks.value
        &&& snapshot.total_paged_kv_attention_fallbacks == self.total_paged_kv_attention_fallbacks.value
        &&& snapshot.total_cuda_graph_decode_rounds == self.total_cuda_graph_decode_rounds.value
        &&& snapshot.total_cuda_graph_decode_eligible_rounds == self.total_cuda_graph_decode_eligible_rounds.value
        &&& snapshot.total_cuda_graph_decode_capture_attempts == self.total_cuda_graph_decode_capture_attempts.value
        &&& snapshot.total_cuda_graph_decode_capture_successes == self.total_cuda_graph_decode_capture_successes.value
        &&& snapshot.total_cuda_graph_decode_capture_failures == self.total_cuda_graph_decode_capture_failures.value
        &&& snapshot.total_cuda_graph_decode_replay_calls == self.total_cuda_graph_decode_replay_calls.value
        &&& snapshot.total_cuda_graph_decode_replay_tokens == self.total_cuda_graph_decode_replay_tokens.value
        &&& snapshot.total_cuda_graph_decode_fallbacks == self.total_cuda_graph_decode_fallbacks.value
        &&& snapshot.total_cuda_graph_decode_fallback_tokens == self.total_cuda_graph_decode_fallback_tokens.value
        &&& snapshot.total_cuda_graph_decode_miss_no_bucket == self.total_cuda_graph_decode_miss_no_bucket.value
        &&& snapshot.total_cuda_graph_decode_miss_mask == self.total_cuda_graph_decode_miss_mask.value
        &&& snapshot.total_cuda_graph_decode_miss_paged_attention == self.total_cuda_graph_decode_miss_paged_attention.value
        &&& snapshot.total_cuda_graph_decode_miss_dynamic_kv == self.total_cuda_graph_decode_miss_dynamic_kv.value
        &&& snapshot.total_cuda_graph_decode_miss_device == self.total_cuda_graph_decode_miss_device.value
        &&& snapshot.paged_kv_block_size == self.paged_kv_block_size.value
        &&& snapshot.paged_kv_live_pages == self.paged_kv_live_pages.value
        &&& snapshot.paged_kv_free_pages == self.paged_kv_free_pages.value
        &&& snapshot.paged_kv_live_tokens == self.paged_kv_live_tokens.value
        &&& snapshot.paged_kv_reserved_tokens == self.paged_kv_reserved_tokens.value
        &&& snapshot.paged_kv_fragment_tokens == self.paged_kv_fragment_tokens.value
        &&& snapshot.paged_kv_reserved_bytes == self.paged_kv_reserved_bytes.value
        &&& snapshot.paged_kv_gpu_capacity_pages == self.paged_kv_gpu_capacity_pages.value
        &&& snapshot.paged_kv_gpu_capacity_bytes == self.paged_kv_gpu_capacity_bytes.value
        &&& snapshot.paged_kv_total_alloc_pages == self.paged_kv_total_alloc_pages.value
        &&& snapshot.paged_kv_total_reused_pages == self.paged_kv_total_reused_pages.value
        &&& snapshot.paged_kv_total_freed_pages == self.paged_kv_total_freed_pages.value
        &&& snapshot.avg_sequential_decode_step_ms.is_quotient(
            self.total_sequential_decode_time_us.value as int,
            self.total_sequential_decode_calls.value * 1000,
        )
        &&& snapshot.avg_sequential_decode_forward_ms.is_quotient(
            self.total_sequential_decode_forward_time_us.value as int,
            self.total_sequential_decode_calls.value * 1000,
        )
        &&& snapshot.avg_sequential_decode_sampling_us_per_token.is_quotient(
            self.total_sequential_decode_sampling_time_us.value as int,
            self.total_sequential_decode_tokens.value as int,
        )
        &&& snapshot.tracked_kv_cache_bytes == self.tracked_kv_cache_bytes.value
        &&& snapshot.gpu_memory_used_bytes == self.gpu_memory_used_bytes.value
        &&& snapshot.gpu_memory_total_bytes == self.gpu_memory_total_bytes.value
        &&& snapshot.total_sched_wait_calls == self.total_sched_wait_calls.value
        &&& snapshot.total_sched_wait_arrivals == self.total_sched_wait_arrivals.value
        &&& snapshot.total_sched_wait_time_us == self.total_sched_wait_time_us.value
        &&& snapshot.total_sched_wait_target_hits == self.total_sched_wait_target_hits.value
    }

    pub fn snapshot(&self) -> (result: StatsSnapshot)
        ensures
            self.shown_by(result),
    {
        StatsSnapshot {
            total_requests: self.total_requests.load(),
            completed_requests: self.completed_requests.load(),
            cancelled_requests: self.cancelled_requests.load(),
            failed_requests: self.failed_requests.load(),
            total_prompt_tokens: self.total_prompt_tokens.load(),
            total_completion_tokens: self.total_completion_tokens.load(),
            active_sequences: self.active_sequences.load(),
            waiting_sequences: self.waiting_sequences.load(),
            total_kv_swaps: self.total_kv_swap_count.load(),
            avg_decode_tokens_per_sec: per_second(
                self.total_decode_steps.load(),
                self.total_decode_time_us.load(),
            ),
            avg_prefill_tokens_per_sec: per_second(
                self.total_prompt_tokens.load(),
                self.total_prefill_time_us.load(),
            ),
            total_queue_wait_time_us: self.total_queue_wait_time_us.load(),
            total_time_to_first_token_us: self.total_time_to_first_token_us.load(),
            total_prefill_steps: self.total_prefill_steps.load(),
            total_prefill_forward_time_us: self.total_prefill_forward_time_us.load(),
            total_prefill_sampling_time_us: self.total_prefill_sampling_time_us.load(),
            total_prefill_swap_time_us: self.total_prefill_swap_time_us.load(),
            total_prefix_cache_lookups: self.total_prefix_cache_lookups.load(),
            total_prefix_cache_hits: self.total_prefix_cache_hits.load(),
            total_prefix_cache_hit_tokens: self.total_prefix_cache_hit_tokens.load(),
            total_prefix_cache_inserts: self.total_prefix_cache_inserts.load(),
            total_prefix_cache_insert_tokens: self.total_prefix_cache_insert_tokens.load(),
            total_prefix_cache_insert_time_us: self.total_prefix_cache_insert_time_us.load(),
            prefix_cache_entries: self.prefix_cache_entries.load(),
            prefix_cache_bytes: self.prefix_cache_bytes.load(),
            avg_queue_wait_ms: avg_ms(
                self.total_queue_wait_time_us.load(),
                self.total_prefill_steps.load(),
            ),
            avg_time_to_first_token_ms: avg_ms(
                self.total_time_to_first_token_us.load(),
                self.total_prefill_steps.load(),
            ),
            avg_prefill_step_ms: avg_ms(
                self.total_prefill_time_us.load(),
                self.total_prefill_steps.load(),
            ),
            avg_prefill_forward_ms: avg_ms(
                self.total_prefill_forward_time_us.load(),
                self.total_prefill_steps.load(),
            ),
            avg_prefill_sampling_ms: avg_ms(
                self.total_prefill_sampling_time_us.load(),
                self.total_prefill_steps.load(),
            ),
            avg_prefill_swap_ms: avg_ms(
                self.total_prefill_swap_time_us.load(),
                self.total_prefill_steps.load(),
            ),
            total_batch_decode_calls: self.total_batch_decode_calls.load(),
            total_batch_decode_tokens: self.total_batch_decode_tokens.load(),
            total_batch_decode_time_us: self.total_batch_decode_time_us.load(),
            total_batch_decode_setup_time_us: self.total_batch_decode_setup_time_us.load(),
            total_batch_decode_setup_kv_len_scan_time_us: self.total_batch_decode_setup_kv_len_scan_time_us.load(),
            total_batch_decode_setup_pad_stack_time_us: self.total_batch_decode_setup_pad_stack_time_us.load(),
            total_batch_decode_setup_contiguous_time_us: self.total_batch_decode_setup_contiguous_time_us.load(),
            total_batch_decode_setup_extra_room_time_us: self.total_batch_decode_setup_extra_room_time_us.load(),
            total_batch_decode_setup_cache_assign_time_us: self.total_batch_decode_setup_cache_assign_time_us.load(),
            total_batch_decode_mask_time_us: self.total_batch_decode_mask_time_us.load(),
            total_batch_decode_forward_time_us: self.total_batch_decode_forward_time_us.load(),
            total_batch_decode_sampling_time_us: self.total_batch_decode_sampling_time_us.load(),
            total_batch_decode_extract_time_us: self.total_batch_decode_extract_time_us.load(),
            total_batch_decode_extract_narrow_time_us: self.total_batch_decode_extract_narrow_time_us.load(),
            total_batch_decode_extract_contiguous_time_us: self.total_batch_decode_extract_contiguous_time_us.load(),
            total_batch_decode_extract_cache_clear_time_us: self.total_batch_decode_extract_cache_clear_time_us.load(),
            total_batch_decode_extract_state_replace_time_us: self.total_batch_decode_extract_state_replace_time_us.load(),
            total_batch_decode_device_token_input_hits: self.total_batch_decode_device_token_input_hits.load(),
            total_batch_decode_device_token_input_tokens: self.total_batch_decode_device_token_input_tokens.load(),
            avg_batch_decode_step_ms: avg_ms(
                self.total_batch_decode_time_us.load(),
                self.total_batch_decode_calls.load(),
            ),
            avg_batch_decode_setup_ms: avg_ms(
                self.total_batch_decode_setup_time_us.load(),
                self.total_batch_decode_calls.load(),
            ),
            avg_batch_decode_setup_kv_len_scan_ms: avg_ms(
                self.total_batch_decode_setup_kv_len_scan_time_us.load(),
                self.total_batch_decode_calls.load(),
            ),
            avg_batch_decode_setup_pad_stack_ms: avg_ms(
                self.total_batch_decode_setup_pad_stack_time_us.load(),
                self.total_batch_decode_calls.load(),
            ),
            avg_batch_decode_setup_contiguous_ms: avg_ms(
                self.total_batch_decode_setup_contiguous_time_us.load(),
                self.total_batch_decode_calls.load(),
            ),
            avg_batch_decode_setup_extra_room_ms: avg_ms(
                self.total_batch_decode_setup_extra_room_time_us.load(),
                self.total_batch_decode_calls.load(),
            ),
            avg_batch_decode_setup_cache_assign_ms: avg_ms(
                self.total_batch_decode_setup_cache_assign_time_us.load(),
                self.total_batch_decode_calls.load(),
            ),
            avg_batch_decode_mask_ms: avg_ms(
                self.total_batch_decode_mask_time_us.load(),
                self.total_batch_decode_calls.load(),
            ),
            avg_batch_decode_forward_ms: avg_ms(
                self.total_batch_decode_forward_time_us.load(),
                self.total_batch_decode_calls.load(),
            ),
            avg_batch_decode_extract_ms: avg_ms(
                self.total_batch_decode_extract_time_us.load(),
                self.total_batch_decode_calls.load(),
            ),
            avg_batch_decode_extract_narrow_ms: avg_ms(
                self.total_batch_decode_extract_narrow_time_us.load(),
                self.total_batch_decode_calls.load(),
            ),
            avg_batch_decode_extract_contiguous_ms: avg_ms(
                self.total_batch_decode_extract_contiguous_time_us.load(),
                self.total_batch_decode_calls.load(),
            ),
            avg_batch_decode_extract_cache_clear_ms: avg_ms(
                self.total_batch_decode_extract_cache_clear_time_us.load(),
                self.total_batch_decode_calls.load(),
            ),
            avg_batch_decode_extract_state_replace_ms: avg_ms(
                self.total_batch_decode_extract_state_replace_time_us.load(),
                self.total_batch_decode_calls.load(),
            ),
            avg_batch_decode_sampling_us_per_token: avg_us(
                self.total_batch_decode_sampling_time_us.load(),
                self.total_batch_decode_tokens.load(),
            ),
            total_sequential_decode_calls: self.total_sequential_decode_calls.load(),
            total_sequential_decode_tokens: self.total_sequential_decode_tokens.load(),
            total_sequential_decode_time_us: self.total_sequential_decode_time_us.load(),
            total_sequential_decode_forward_time_us: self.total_sequential_decode_forward_time_us.load(),
            total_sequential_decode_sampling_time_us: self.total_sequential_decode_sampling_time_us.load(),
            total_sampling_batch_greedy_calls: self.total_sampling_batch_greedy_calls.load(),
            total_sampling_batch_greedy_tokens: self.total_sampling_batch_greedy_tokens.load(),
            total_sampling_batch_greedy_fallbacks: self.total_sampling_batch_greedy_fallbacks.load(),
            total_sampling_batch_greedy_cuda_plain_calls: self.total_sampling_batch_greedy_cuda_plain_calls.load(),
            total_sampling_batch_greedy_cuda_plain_tokens: self.total_sampling_batch_greedy_cuda_plain_tokens.load(),
            total_sampling_batch_greedy_cuda_penalty_calls: self.total_sampling_batch_greedy_cuda_penalty_calls.load(),
            total_sampling_batch_greedy_cuda_penalty_tokens: self.total_sampling_batch_greedy_cuda_penalty_tokens.load(),
            total_sampling_batch_greedy_tensor_fallback_calls: self.total_sampling_batch_greedy_tensor_fallback_calls.load(),
            total_sampling_batch_greedy_tensor_fallback_tokens: self.total_sampling_batch_greedy_tensor_fallback_tokens.load(),
            total_sampling_batch_non_greedy_calls: self.total_sampling_batch_non_greedy_calls.load(),
            total_sampling_batch_non_greedy_tokens: self.total_sampling_batch_non_greedy_tokens.load(),
            total_sampling_batch_non_greedy_cuda_bf16_calls: self.total_sampling_batch_non_greedy_cuda_bf16_calls.load(),
            total_sampling_batch_non_greedy_cuda_bf16_tokens: self.total_sampling_batch_non_greedy_cuda_bf16_tokens.load(),
            total_sampling_batch_non_greedy_fallback_calls: self.total_sampling_batch_non_greedy_fallback_calls.load(),
            total_sampling_batch_non_greedy_fallback_tokens: self.total_sampling_batch_non_greedy_fallback_tokens.load(),
            total_sampling_row_greedy_tokens: self.total_sampling_row_greedy_tokens.load(),
            total_sampling_non_greedy_tokens: self.total_sampling_non_greedy_tokens.load(),
            total_sampling_failures: self.total_sampling_failures.load(),
            total_paged_kv_metadata_syncs: self.total_paged_kv_metadata_syncs.load(),
            total_paged_kv_new_pages: self.total_paged_kv_new_pages.load(),
            total_paged_kv_reused_pages: self.total_paged_kv_reused_pages.load(),
            total_paged_kv_released_pages: self.total_paged_kv_released_pages.load(),
            total_paged_kv_compactions: self.total_paged_kv_compactions.load(),
            total_paged_kv_compacted_pages: self.total_paged_kv_compacted_pages.load(),
            total_paged_kv_idle_resets: self.total_paged_kv_idle_resets.load(),
            total_paged_kv_idle_reset_pages: self.total_paged_kv_idle_reset_pages.load(),
            total_paged_kv_pressure_skips: self.total_paged_kv_pressure_skips.load(),
            total_paged_kv_pressure_released_pages: self.total_paged_kv_pressure_released_pages.load(),
            total_paged_kv_gather_extracts: self.total_paged_kv_gather_extracts.load(),
            total_paged_kv_gather_extract_layers: self.total_paged_kv_gather_extract_layers.load(),
            total_paged_kv_gather_kernel_time_us: self.total_paged_kv_gather_kernel_time_us.load(),
            total_paged_kv_gather_per_row_time_us: self.total_paged_kv_gather_per_row_time_us.load(),
            total_paged_kv_gather_regathers: self.total_paged_kv_gather_regathers.load(),
            total_paged_kv_batched_setup_hits: self.total_paged_kv_batched_setup_hits.load(),
            total_paged_kv_batched_setup_regather: self.total_paged_kv_batched_setup_regather.load(),
            total_paged_kv_batched_setup_us: self.total_paged_kv_batched_setup_us.load(),
            total_paged_kv_batched_setup_equal_length_layers: self.total_paged_kv_batched_setup_equal_length_layers.load(),
            total_paged_kv_batched_setup_ragged_layers: self.total_paged_kv_batched_setup_ragged_layers.load(),
            total_paged_kv_batched_setup_ragged_rows: self.total_paged_kv_batched_setup_ragged_rows.load(),
            total_paged_kv_batched_setup_pending_batch_mismatch: self.total_paged_kv_batched_setup_pending_batch_mismatch.load(),
            total_paged_kv_batched_setup_pending_token_mismatch: self.total_paged_kv_batched_setup_pending_token_mismatch.load(),
            total_paged_kv_batched_setup_fallback_per_seq_cache: self.total_paged_kv_batched_setup_fallback_per_seq_cache.load(),
            total_paged_kv_batched_setup_fallback_regather_unavailable: self.total_paged_kv_batched_setup_fallback_regather_unavailable.load(),
            total_paged_kv_batched_setup_fallback_regather_error: self.total_paged_kv_batched_setup_fallback_regather_error.load(),
            total_paged_kv_attention_contexts: self.total_paged_kv_attention_contexts.load(),
            total_paged_kv_attention_decode_calls: self.total_paged_kv_attention_decode_calls.load(),
            total_paged_kv_attention_decode_tokens: self.total_paged_kv_attention_decode_tokens.load(),
            total_paged_kv_attention_layer_hits: self.total_paged_kv_attention_layer_hits.load(),
            total_paged_kv_attention_layer_fallbacks: self.total_paged_kv_attention_layer_fallbacks.load(),
            total_paged_kv_attention_fallbacks: self.total_paged_kv_attention_fallbacks.load(),
            total_cuda_graph_decode_rounds: self.total_cuda_graph_decode_rounds.load(),
            total_cuda_graph_decode_eligible_rounds: self.total_cuda_graph_decode_eligible_rounds.load(),
            total_cuda_graph_decode_capture_attempts: self.total_cuda_graph_decode_capture_attempts.load(),
            total_cuda_graph_decode_capture_successes: self.total_cuda_graph_decode_capture_successes.load(),
            total_cuda_graph_decode_capture_failures: self.total_cuda_graph_decode_capture_failures.load(),
            total_cuda_graph_decode_replay_calls: self.total_cuda_graph_decode_replay_calls.load(),
            total_cuda_graph_decode_replay_tokens: self.total_cuda_graph_decode_replay_tokens.load(),
            total_cuda_graph_decode_fallbacks: self.total_cuda_graph_decode_fallbacks.load(),
            total_cuda_graph_decode_fallback_tokens: self.total_cuda_graph_decode_fallback_tokens.load(),
            total_cuda_graph_decode_miss_no_bucket: self.total_cuda_graph_decode_miss_no_bucket.load(),
            total_cuda_graph_decode_miss_mask: self.total_cuda_graph_decode_miss_mask.load(),
            total_cuda_graph_decode_miss_paged_attention: self.total_cuda_graph_decode_miss_paged_attention.load(),
            total_cuda_graph_decode_miss_dynamic_kv: self.total_cuda_graph_decode_miss_dynamic_kv.load(),
            total_cuda_graph_decode_miss_device: self.total_cuda_graph_decode_miss_device.load(),
            paged_kv_block_size: self.paged_kv_block_size.load(),
            paged_kv_live_pages: self.paged_kv_live_pages.load(),
            paged_kv_free_pages: self.paged_kv_free_pages.load(),
            paged_kv_live_tokens: self.paged_kv_live_tokens.load(),
            paged_kv_reserved_tokens: self.paged_kv_reserved_tokens.load(),
            paged_kv_fragment_tokens: self.paged_kv_fragment_tokens.load(),
            paged_kv_reserved_bytes: self.paged_kv_reserved_bytes.load(),
            paged_kv_gpu_capacity_pages: self.paged_kv_gpu_capacity_pages.load(),
            paged_kv_gpu_capacity_bytes: self.paged_kv_gpu_capacity_bytes.load(),
            paged_kv_total_alloc_pages: self.paged_kv_total_alloc_pages.load(),
            paged_kv_total_reused_pages: self.paged_kv_total_reused_pages.load(),
            paged_kv_total_freed_pages: self.paged_kv_total_freed_pages.load(),
            avg_sequential_decode_step_ms: avg_ms(
                self.total_sequential_decode_time_us.load(),
                self.total_sequential_decode_calls.load(),
            ),
            avg_sequential_decode_forward_ms: avg_ms(
                self.total_sequential_decode_forward_time_us.load(),
                self.total_sequential_decode_calls.load(),
            ),
            avg_sequential_decode_sampling_us_per_token: avg_us(
                self.total_sequential_decode_sampling_time_us.load(),
                self.total_sequential_decode_tokens.load(),
            ),
            tracked_kv_cache_bytes: self.tracked_kv_cache_bytes.load(),
            gpu_memory_used_bytes: self.gpu_memory_used_bytes.load(),
            gpu_memory_total_bytes: self.gpu_memory_total_bytes.load(),
            total_sched_wait_calls: self.total_sched_wait_calls.load(),
            total_sched_wait_arrivals: self.total_sched_wait_arrivals.load(),
            total_sched_wait_time_us: self.total_sched_wait_time_us.load(),
            total_sched_wait_target_hits: self.total_sched_wait_target_hits.load(),
        }
    }
}

impl Default for EngineStats {
    fn default() -> (result: Self)
        ensures
            result.all_zero(),
    {
        EngineStats::new()
    }
}

/// Equal counters give equal snapshots.
pub proof fn law_snapshot_is_determined(stats: EngineStats, a: StatsSnapshot, b: StatsSnapshot)
    requires
        stats.shown_by(a),
        stats.shown_by(b),
    ensures
        a == b,
{
}

/// A counter that was added to has moved by just that much.
pub proof fn law_counters_add_up(counter: Counter, amount: u64)
    ensures
        moved(counter, counter.plus(amount as int)) == amount,
        counter.value + amount <= u64::MAX ==> counter.plus(amount as int).value == counter.value
            + amount,
{
}

/// A quotient times its denominator is its numerator again, and without a denominator it is zero.
pub proof fn law_quotients_multiply_back(ratio: Ratio, numerator: int, denominator: int)
    requires
        ratio.is_quotient(numerator, denominator),
        denominator >= 0,
    ensures
        ratio.denominator > 0,
        denominator > 0 ==> ratio.numerator * denominator == numerator * ratio.denominator,
        denominator == 0 ==> ratio.numerator == 0,
{
}

/// The quotient is the average that spreads `total` evenly over `count`; zero where there is nothing
/// to spread over.
pub open spec fn averages(average: Ratio, total: int, count: int) -> bool {
    &&& average.denominator > 0
    &&& count > 0 ==> average.numerator * count == total * average.denominator
    &&& count == 0 ==> average.numerator == 0
}

/// The averages of a snapshot are those of the totals that it shows beside them.
pub proof fn law_averages_fit_the_totals(stats: EngineStats, snapshot: StatsSnapshot)
    requires
        stats.shown_by(snapshot),
    ensures
        averages(
            snapshot.avg_decode_tokens_per_sec,
            stats.total_decode_steps.value * 1_000_000,
            stats.total_decode_time_us.value as int,
        ),
        averages(
            snapshot.avg_prefill_tokens_per_sec,
            snapshot.total_prompt_tokens * 1_000_000,
            stats.total_prefill_time_us.value as int,
        ),
        averages(
            snapshot.avg_prefill_step_ms,
            stats.total_prefill_time_us.value as int,
            snapshot.total_prefill_steps * 1000,
        ),
        averages(snapshot.avg_queue_wait_ms, snapshot.total_queue_wait_time_us as int, snapshot.total_prefill_steps * 1000),
        averages(snapshot.avg_time_to_first_token_ms, snapshot.total_time_to_first_token_us as int, snapshot.total_prefill_steps * 1000),
        averages(snapshot.avg_prefill_forward_ms, snapshot.total_prefill_forward_time_us as int, snapshot.total_prefill_steps * 1000),
        averages(snapshot.avg_prefill_sampling_ms, snapshot.total_prefill_sampling_time_us as int, snapshot.total_prefill_steps * 1000),
        averages(snapshot.avg_prefill_swap_ms, snapshot.total_prefill_swap_time_us as int, snapshot.total_prefill_steps * 1000),
        averages(snapshot.avg_batch_decode_step_ms, snapshot.total_batch_decode_time_us as int, snapshot.total_batch_decode_calls * 1000),
        averages(snapshot.avg_batch_decode_setup_ms, snapshot.total_batch_decode_setup_time_us as int, snapshot.total_batch_decode_calls * 1000),
        averages(snapshot.avg_batch_decode_setup_kv_len_scan_ms, snapshot.total_batch_decode_setup_kv_len_scan_time_us as int, snapshot.total_batch_decode_calls * 1000),
        averages(snapshot.avg_batch_decode_setup_pad_stack_ms, snapshot.total_batch_decode_setup_pad_stack_time_us as int, snapshot.total_batch_decode_calls * 1000),
        averages(snapshot.avg_batch_decode_setup_contiguous_ms, snapshot.total_batch_decode_setup_contiguous_time_us as int, snapshot.total_batch_decode_calls * 1000),
        averages(snapshot.avg_batch_decode_setup_extra_room_ms, snapshot.total_batch_decode_setup_extra_room_time_us as int, snapshot.total_batch_decode_calls * 1000),
        averages(snapshot.avg_batch_decode_setup_cache_assign_ms, snapshot.total_batch_decode_setup_cache_assign_time_us as int, snapshot.total_batch_decode_calls * 1000),
        averages(snapshot.avg_batch_decode_mask_ms, snapshot.total_batch_decode_mask_time_us as int, snapshot.total_batch_decode_calls * 1000),
        averages(snapshot.avg_batch_decode_forward_ms, snapshot.total_batch_decode_forward_time_us as int, snapshot.total_batch_decode_calls * 1000),
        averages(snapshot.avg_batch_decode_extract_ms, snapshot.total_batch_decode_extract_time_us as int, snapshot.total_batch_decode_calls * 1000),
        averages(snapshot.avg_batch_decode_extract_narrow_ms, snapshot.total_batch_decode_extract_narrow_time_us as int, snapshot.total_batch_decode_calls * 1000),
        averages(snapshot.avg_batch_decode_extract_contiguous_ms, snapshot.total_batch_decode_extract_contiguous_time_us as int, snapshot.total_batch_decode_calls * 1000),
        averages(snapshot.avg_batch_decode_extract_cache_clear_ms, snapshot.total_batch_decode_extract_cache_clear_time_us as int, snapshot.total_batch_decode_calls * 1000),
        averages(snapshot.avg_batch_decode_extract_state_replace_ms, snapshot.total_batch_decode_extract_state_replace_time_us as int, snapshot.total_batch_decode_calls * 1000),
        averages(snapshot.avg_batch_decode_sampling_us_per_token, snapshot.total_batch_decode_sampling_time_us as int, snapshot.total_batch_decode_tokens as int),
        averages(snapshot.avg_sequential_decode_step_ms, snapshot.total_sequential_decode_time_us as int, snapshot.total_sequential_decode_calls * 1000),
        averages(snapshot.avg_sequential_decode_forward_ms, snapshot.total_sequential_decode_forward_time_us as int, snapshot.total_sequential_decode_calls * 1000),
        averages(snapshot.avg_sequential_decode_sampling_us_per_token, snapshot.total_sequential_decode_sampling_time_us as int, snapshot.total_sequential_decode_tokens as int),
{
}

} // verus!
